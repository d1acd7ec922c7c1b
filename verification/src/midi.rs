//! Whole MIDI files: decoding, remapping one track, encoding.
//!
//! The container format is the business of the `midly` crate. This module
//! calls it and proves nothing of it: what `midly` decodes from given bytes,
//! and what it encodes a file to, are named and believed to depend on nothing
//! but the bytes and the file. Everything between the two calls is proved,
//! and so is what is kept from the codec: bytes with a time division that it
//! does not take, and events too wide for the format, which it would cut to
//! size without a word.

use vstd::prelude::*;
use crate::error::RemapError;
use crate::event::{Event, NoteKind, NoteMessage, Payload};
use midly::MetaMessage::TrackName;
use midly::MidiMessage::{Aftertouch, NoteOff, NoteOn};
use midly::TrackEventKind::{Meta, Midi};
use crate::table::ConversionTable;
use crate::track::{convert_tracks, converted_track, law_conversion_keeps_range, track_in_range};

verus! {

/// `midly::Header`, carried from the decoded file to the encoded one.
#[verifier::external_type_specification]
#[verifier::external_body]
pub struct ExHeader(midly::Header);

/// `midly::TrackEventKind`, the payload of every event that carries no note
/// key and is no track name.
#[verifier::external_type_specification]
#[verifier::external_body]
pub struct ExTrackEventKind<'a>(midly::TrackEventKind<'a>);

/// `midly::TrackEvent`, an event as the codec holds it.
#[verifier::external_type_specification]
#[verifier::external_body]
pub struct ExTrackEvent<'a>(midly::TrackEvent<'a>);

/// A decoded MIDI file: its header and its tracks.
pub struct MidiFile<'a> {
    /// Format and timing of the file.
    pub header: midly::Header,
    /// The tracks, in the order of the file.
    pub tracks: Vec<Vec<Event<'a, midly::TrackEventKind<'a>>>>,
}

/// The model of a MIDI file: its header and, for each track, the sequence of
/// its events.
pub struct MidiFileModel {
    pub header: midly::Header,
    pub tracks: Seq<Seq<Event<'static, midly::TrackEventKind<'static>>>>,
}

impl<'a> View for MidiFile<'a> {
    type V = MidiFileModel;

    open spec fn view(&self) -> MidiFileModel {
        MidiFileModel {
            header: self.header,
            tracks: Seq::new(self.tracks@.len(), |i: int| self.tracks@[i]@),
        }
    }
}

/// A header chunk may start at `at`: the four bytes `MThd` stand there, and
/// the byte twelve places on, the high byte of the time division of such a
/// chunk, is within `raw`.
pub open spec fn header_at(raw: Seq<u8>, at: int) -> bool {
    &&& 0 <= at
    &&& at + 12 < raw.len()
    &&& raw[at] == 0x4D
    &&& raw[at + 1] == 0x54
    &&& raw[at + 2] == 0x68
    &&& raw[at + 3] == 0x64
}

/// No header chunk that may start anywhere in `raw` has a time division with
/// the high byte 0x80. That byte would stand for a frame rate of 128 frames
/// per second counted down from zero, which is none.
pub open spec fn timing_safe(raw: Seq<u8>) -> bool {
    forall|at: int| #[trigger] header_at(raw, at) ==> raw[at + 12] != 0x80
}

/// Every event of every track fits the file format.
pub open spec fn file_in_range(file: MidiFileModel) -> bool {
    forall|t: int| 0 <= t < file.tracks.len() ==> track_in_range(#[trigger] file.tracks[t])
}

/// What decoding makes of `raw`: the header and the events that
/// `midly::Smf::parse` reads from the bytes, or `None` where it rejects them.
pub uninterp spec fn decoded_file(raw: Seq<u8>) -> Option<MidiFileModel>;

/// What encoding makes of `file`: the bytes that `midly::Smf::write_std`
/// writes for its header and events, or `None` where it fails.
pub uninterp spec fn encoded_file(file: MidiFileModel) -> Option<Seq<u8>>;

/// Turns an event of `midly` into an event of this library: `as_int` of the
/// delta, channel, key and velocity of a note-off, note-on or aftertouch, the
/// bytes of a track name, and any other payload as it is.
#[verifier::external_body]
fn event_of<'a>(event: &midly::TrackEvent<'a>) -> Event<'a, midly::TrackEventKind<'a>> {
    let kind = match event.kind {
        Midi { channel, message } => {
            let (kind, key, vel) = match message {
                NoteOff { key, vel } => (NoteKind::NoteOff, key, vel),
                NoteOn { key, vel } => (NoteKind::NoteOn, key, vel),
                Aftertouch { key, vel } => (NoteKind::Aftertouch, key, vel),
                _ => return Event { delta: event.delta.as_int(), kind: Payload::Other(event.kind) },
            };
            let message = NoteMessage { kind, key: key.as_int(), vel: vel.as_int() };
            Payload::Note { channel: channel.as_int(), message }
        },
        Meta(TrackName(name)) => Payload::TrackName(name),
        other => Payload::Other(other),
    };
    Event { delta: event.delta.as_int(), kind }
}

/// Turns an event of this library into an event of `midly`, the reverse of
/// `event_of`. The numbers go through `From`, which in `midly` keeps the low
/// bits that the field has room for: all of them, for an event that fits the
/// file format.
#[verifier::external_body]
fn midly_event<'a>(event: &Event<'a, midly::TrackEventKind<'a>>) -> midly::TrackEvent<'a> {
    let kind = match event.kind {
        Payload::Note { channel, message: NoteMessage { kind, key, vel } } => {
            let (key, vel) = (key.into(), vel.into());
            let message = match kind {
                NoteKind::NoteOff => NoteOff { key, vel },
                NoteKind::NoteOn => NoteOn { key, vel },
                NoteKind::Aftertouch => Aftertouch { key, vel },
            };
            Midi { channel: channel.into(), message }
        },
        Payload::TrackName(name) => Meta(TrackName(name)),
        Payload::Other(other) => other,
    };
    midly::TrackEvent { delta: event.delta.into(), kind }
}

/// Calls `midly::Smf::parse` and hands the header and the events of each
/// track out. The result is the named one for these bytes, and every event
/// in it fits the file format, since `midly` holds delta, channel, key and
/// velocity in integers of 28, 4 and 7 bits.
///
/// `Smf::parse` reads the time division of every chunk that starts with
/// `MThd` and negates its high byte as an `i8`, which a build that checks its
/// arithmetic does not survive for 0x80. The `requires` keeps such bytes out.
#[verifier::external_body]
fn decode<'a>(raw: &'a [u8]) -> (r: Option<MidiFile<'a>>)
    requires
        timing_safe(raw@),
    ensures
        match r {
            Some(file) => decoded_file(raw@) == Some(file@) && file_in_range(file@),
            None => decoded_file(raw@) is None,
        },
{
    let smf = midly::Smf::parse(raw).ok()?;
    let tracks = smf.tracks.iter().map(|track| track.iter().map(event_of).collect()).collect();
    Some(MidiFile { header: smf.header, tracks })
}

/// Calls `midly::Smf::write_std` on the header and tracks of `file`, into a
/// vector. The result is the named one for this file.
#[verifier::external_body]
fn encode<'a>(file: &MidiFile<'a>) -> (r: Option<Vec<u8>>)
    requires
        file_in_range(file@),
    ensures
        match r {
            Some(bytes) => encoded_file(file@) == Some(bytes@),
            None => encoded_file(file@) is None,
        },
{
    let tracks = file.tracks.iter().map(|track| track.iter().map(midly_event).collect()).collect();
    let mut bytes = Vec::new();
    midly::Smf { header: file.header, tracks }.write_std(&mut bytes).ok()?;
    Some(bytes)
}

/// Tells whether the codec takes the time division of every header chunk
/// that may start somewhere in `raw`.
pub fn has_safe_timing(raw: &[u8]) -> (safe: bool)
    ensures
        safe == timing_safe(raw@),
{
    let n = raw.len();
    if n <= 12 {
        return true;
    }
    let mut i: usize = 0;
    while i < n - 12
        invariant
            n == raw@.len(),
            n > 12,
            i <= n - 12,
            forall|at: int| at < i && #[trigger] header_at(raw@, at) ==> raw@[at + 12] != 0x80,
        decreases n - i,
    {
        if raw[i] == 0x4D && raw[i + 1] == 0x54 && raw[i + 2] == 0x68 && raw[i + 3] == 0x64
            && raw[i + 12] == 0x80 {
            assert(header_at(raw@, i as int));
            return false;
        }
        i += 1;
    }
    true
}

/// Tells whether every event of `file` fits the file format.
pub fn fits_format<'a>(file: &MidiFile<'a>) -> (fits: bool)
    ensures
        fits == file_in_range(file@),
{
    let mut t: usize = 0;
    while t < file.tracks.len()
        invariant
            t <= file.tracks@.len(),
            forall|s: int| 0 <= s < t ==> track_in_range(#[trigger] file@.tracks[s]),
        decreases file.tracks@.len() - t,
    {
        let track = &file.tracks[t];
        let mut i: usize = 0;
        while i < track.len()
            invariant
                t < file.tracks@.len(),
                *track == file.tracks@[t as int],
                i <= track@.len(),
                forall|j: int| 0 <= j < i ==> (#[trigger] track@[j]).in_range(),
            decreases track@.len() - i,
        {
            if !track[i].fits_format() {
                assert(!track_in_range(file@.tracks[t as int])) by {
                    assert(file@.tracks[t as int] == track@);
                    assert(!track@[i as int].in_range());
                }
                return false;
            }
            i += 1;
        }
        assert(track_in_range(file@.tracks[t as int])) by {
            assert(file@.tracks[t as int] == track@);
        }
        t += 1;
    }
    true
}

/// Decodes a MIDI file. Bytes whose time division the codec does not take
/// are no MIDI file, like those that the codec rejects.
pub fn read_file<'a>(raw: &'a [u8]) -> (r: Result<MidiFile<'a>, RemapError>)
    ensures
        match r {
            Ok(file) => {
                &&& timing_safe(raw@)
                &&& decoded_file(raw@) == Some(file@)
                &&& file_in_range(file@)
            },
            Err(e) => {
                &&& e == RemapError::ContainerParse
                &&& !timing_safe(raw@) || decoded_file(raw@) is None
            },
        },
{
    if !has_safe_timing(raw) {
        return Err(RemapError::ContainerParse);
    }
    match decode(raw) {
        Some(file) => Ok(file),
        None => Err(RemapError::ContainerParse),
    }
}

/// Encodes a MIDI file. A file with an event that does not fit the format
/// is not written, and neither is one that the codec fails on.
pub fn write_file<'a>(file: &MidiFile<'a>) -> (r: Result<Vec<u8>, RemapError>)
    ensures
        match r {
            Ok(bytes) => file_in_range(file@) && encoded_file(file@) == Some(bytes@),
            Err(e) => {
                &&& e == RemapError::OutputWrite
                &&& !file_in_range(file@) || encoded_file(file@) is None
            },
        },
{
    if !fits_format(file) {
        return Err(RemapError::OutputWrite);
    }
    match encode(file) {
        Some(bytes) => Ok(bytes),
        None => Err(RemapError::OutputWrite),
    }
}

/// The file `file` with the track at `track_number` converted by `table`.
pub open spec fn remapped(file: MidiFileModel, table: Map<u8, u8>, track_number: int) -> MidiFileModel
    recommends
        0 <= track_number < file.tracks.len(),
{
    MidiFileModel {
        header: file.header,
        tracks: file.tracks.update(
            track_number,
            converted_track(table, file.tracks[track_number]),
        ),
    }
}

/// What remapping track `track_number` of the file in `raw` comes to: the
/// bytes of the remapped file, or the reason why there are none.
pub open spec fn converted_file(raw: Seq<u8>, table: Map<u8, u8>, track_number: usize) -> Result<
    Seq<u8>,
    RemapError,
> {
    if !timing_safe(raw) {
        Err(RemapError::ContainerParse)
    } else {
        match decoded_file(raw) {
            None => Err(RemapError::ContainerParse),
            Some(file) => if track_number >= file.tracks.len() {
                Err(
                    RemapError::TrackIndexOutOfRange {
                        index: track_number,
                        tracks: file.tracks.len() as usize,
                    },
                )
            } else {
                match encoded_file(remapped(file, table, track_number as int)) {
                    Some(bytes) => Ok(bytes),
                    None => Err(RemapError::OutputWrite),
                }
            },
        }
    }
}

/// Remaps one track of a MIDI file, from the bytes of the file to the bytes
/// of the remapped file.
///
/// The file is decoded, the track at `track_number` is replaced by its
/// conversion, and the file is encoded again. Bytes that are no MIDI file, a
/// track number that the file does not have, and a file that the codec
/// cannot encode each fail with an error of their own, in that order.
pub fn convert_file(input: &[u8], conversion_map: &ConversionTable, track_number: usize) -> (r:
    Result<Vec<u8>, RemapError>)
    requires
        conversion_map.wf(),
    ensures
        match r {
            Ok(bytes) => converted_file(input@, conversion_map@, track_number) == Ok::<
                Seq<u8>,
                RemapError,
            >(bytes@),
            Err(e) => converted_file(input@, conversion_map@, track_number) == Err::<
                Seq<u8>,
                RemapError,
            >(e),
        },
{
    let mut file = match read_file(input) {
        Ok(file) => file,
        Err(e) => {
            return Err(e);
        },
    };
    let ghost before = file@;
    match convert_tracks(&mut file.tracks, conversion_map, track_number) {
        Ok(_) => {},
        Err(e) => {
            return Err(e);
        },
    }
    proof {
        let after = remapped(before, conversion_map@, track_number as int);
        assert(file@.tracks =~= after.tracks);
        law_conversion_keeps_range(conversion_map@, before.tracks[track_number as int]);
        assert forall|t: int| 0 <= t < after.tracks.len() implies track_in_range(
            #[trigger] after.tracks[t],
        ) by {
            if t != track_number {
                assert(after.tracks[t] == before.tracks[t]);
            }
        }
    }
    write_file(&file)
}

} // verus!
