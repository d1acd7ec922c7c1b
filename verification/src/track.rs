//! Remapping the events of a track, and putting the remapped track in its
//! place among the tracks of a file.

use vstd::prelude::*;
use crate::error::RemapError;
use crate::event::{make_track_event, Event, NoteMessage, Payload};
use crate::table::{converted_key, is_identity, notes_only, ConversionTable};

verus! {

/// A note message after conversion: its key converted, the rest as it was.
pub open spec fn converted_message(table: Map<u8, u8>, message: NoteMessage) -> NoteMessage {
    NoteMessage { kind: message.kind, key: converted_key(table, message.key), vel: message.vel }
}

/// An event after conversion. An event that carries a note key has the key
/// converted and keeps its delta, channel, kind and velocity; any other event
/// is the same event.
pub open spec fn converted_event<'a, P>(table: Map<u8, u8>, event: Event<'a, P>) -> Event<'a, P> {
    match event.kind {
        Payload::Note { channel, message } => Event {
            delta: event.delta,
            kind: Payload::Note { channel, message: converted_message(table, message) },
        },
        _ => event,
    }
}

/// A track after conversion: each event converted, in its place.
pub open spec fn converted_track<'a, P>(table: Map<u8, u8>, track: Seq<Event<'a, P>>) -> Seq<
    Event<'a, P>,
> {
    Seq::new(track.len(), |i: int| converted_event(table, track[i]))
}

/// Two events differ in nothing but, where they carry one, the note key: a
/// note message keeps its delta, channel, kind and velocity, and any other
/// event is the same event.
pub open spec fn same_but_key<'a, P>(a: Event<'a, P>, b: Event<'a, P>) -> bool {
    match (a.kind, b.kind) {
        (
            Payload::Note { channel: channel_a, message: message_a },
            Payload::Note { channel: channel_b, message: message_b },
        ) => {
            &&& a.delta == b.delta
            &&& channel_a == channel_b
            &&& message_a.kind == message_b.kind
            &&& message_a.vel == message_b.vel
        },
        (Payload::Note { .. }, _) => false,
        _ => b == a,
    }
}

/// Converts one note key: to what the table maps it to, or to itself where the
/// table has no entry for it.
pub fn convert_event(input: u8, conversion_map: &ConversionTable) -> (output: u8)
    requires
        conversion_map.wf(),
    ensures
        output == converted_key(conversion_map@, input),
        input <= 127 ==> output <= 127,
{
    if let Some(value) = conversion_map.get(input) {
        return value;
    }
    input
}

/// Converts a track: a new track with the same events in the same order, in
/// which every note-off, note-on and aftertouch has its key converted by the
/// table. The track given is not touched.
pub fn convert_track<'a, P: Copy>(
    track: &Vec<Event<'a, P>>,
    conversion_map: &ConversionTable,
) -> (result: Vec<Event<'a, P>>)
    requires
        conversion_map.wf(),
    ensures
        result@ == converted_track(conversion_map@, track@),
        // as many events, each at its time
        result@.len() == track@.len(),
        forall|i: int| 0 <= i < track@.len() ==> (#[trigger] result@[i]).delta == track@[i].delta,
        // nothing but note keys is changed
        forall|i: int| 0 <= i < track@.len() ==> same_but_key(track@[i], #[trigger] result@[i]),
        // a key without an entry stays
        forall|i: int|
            0 <= i < track@.len() && (track@[i].kind matches Payload::Note { message, .. }
                && !conversion_map@.contains_key(message.key)) ==> #[trigger] result@[i]
                == track@[i],
        // a table that maps every key to itself changes nothing
        is_identity(conversion_map@) ==> result@ == track@,
        // what fits the file format still fits it
        forall|i: int|
            0 <= i < track@.len() && track@[i].in_range() ==> (#[trigger] result@[i]).in_range(),
{
    let mut result: Vec<Event<'a, P>> = Vec::new();
    let mut i: usize = 0;
    while i < track.len()
        invariant
            conversion_map.wf(),
            i <= track@.len(),
            result@.len() == i,
            forall|j: int| 0 <= j < i ==> #[trigger] result@[j] == converted_event(
                conversion_map@,
                track@[j],
            ),
            forall|j: int| 0 <= j < i && track@[j].in_range() ==> (#[trigger] result@[j]).in_range(),
        decreases track@.len() - i,
    {
        let event = track[i];
        let changed = match event.kind {
            Payload::Note { channel, message } => make_track_event(
                event.delta,
                channel,
                NoteMessage {
                    kind: message.kind,
                    key: convert_event(message.key, conversion_map),
                    vel: message.vel,
                },
            ),
            _ => event,
        };
        result.push(changed);
        i += 1;
    }
    proof {
        assert(result@ =~= converted_track(conversion_map@, track@));
        law_conversion_keeps_count_and_timing(conversion_map@, track@);
        law_conversion_changes_keys_only(conversion_map@, track@);
        law_missing_key_passes_through(conversion_map@, track@);
        if is_identity(conversion_map@) {
            law_identity_table_changes_nothing(conversion_map@, track@);
        }
    }
    result
}

/// A converted track has as many events as the track it was made from, and
/// each event keeps its delta, so that every event stays at its time.
pub proof fn law_conversion_keeps_count_and_timing<'a, P>(
    table: Map<u8, u8>,
    track: Seq<Event<'a, P>>,
)
    ensures
        converted_track(table, track).len() == track.len(),
        forall|i: int|
            0 <= i < track.len() ==> (#[trigger] converted_track(table, track)[i]).delta
                == track[i].delta,
{
}

/// Conversion changes nothing but note keys: a note-off, note-on or
/// aftertouch keeps its delta, channel, kind and velocity, and every other
/// event comes out as it went in.
pub proof fn law_conversion_changes_keys_only<'a, P>(table: Map<u8, u8>, track: Seq<Event<'a, P>>)
    ensures
        forall|i: int|
            0 <= i < track.len() ==> same_but_key(
                track[i],
                #[trigger] converted_track(table, track)[i],
            ),
{
}

/// An event whose key has no entry in the table comes out as it went in.
pub proof fn law_missing_key_passes_through<'a, P>(table: Map<u8, u8>, track: Seq<Event<'a, P>>)
    ensures
        forall|i: int|
            0 <= i < track.len() && (track[i].kind matches Payload::Note { message, .. }
                && !table.contains_key(message.key)) ==> #[trigger] converted_track(
                table,
                track,
            )[i] == track[i],
{
}

/// A table that maps every one of its keys to itself converts every track to
/// itself.
pub proof fn law_identity_table_changes_nothing<'a, P>(
    table: Map<u8, u8>,
    track: Seq<Event<'a, P>>,
)
    requires
        is_identity(table),
    ensures
        converted_track(table, track) == track,
{
    assert(converted_track(table, track) =~= track);
}

/// Every event of `track` fits the file format.
pub open spec fn track_in_range<'a, P>(track: Seq<Event<'a, P>>) -> bool {
    forall|i: int| 0 <= i < track.len() ==> (#[trigger] track[i]).in_range()
}

/// A table of note numbers converts a track that fits the file format into
/// one that fits it.
pub proof fn law_conversion_keeps_range<'a, P>(table: Map<u8, u8>, track: Seq<Event<'a, P>>)
    requires
        notes_only(table),
        track_in_range(track),
    ensures
        track_in_range(converted_track(table, track)),
{
    let after = converted_track(table, track);
    assert forall|i: int| 0 <= i < after.len() implies (#[trigger] after[i]).in_range() by {
        assert(track[i].in_range());
    }
}

/// The name of a track: the bytes of its first track-name event.
pub open spec fn first_track_name<'a, P>(track: Seq<Event<'a, P>>) -> Option<&'a [u8]>
    decreases track.len(),
{
    if track.len() == 0 {
        None
    } else {
        match track[0].kind {
            Payload::TrackName(bytes) => Some(bytes),
            _ => first_track_name(track.drop_first()),
        }
    }
}

/// Finds the name of a track: the bytes of its first track-name event.
pub fn track_name<'a, P>(track: &Vec<Event<'a, P>>) -> (name: Option<&'a [u8]>)
    ensures
        name == first_track_name(track@),
{
    let mut i: usize = 0;
    proof {
        assert(track@.skip(0) == track@);
    }
    while i < track.len()
        invariant
            i <= track@.len(),
            first_track_name(track@) == first_track_name(track@.skip(i as int)),
        decreases track@.len() - i,
    {
        proof {
            assert(track@.skip(i as int)[0] == track@[i as int]);
            assert(track@.skip(i as int).drop_first() == track@.skip(i as int + 1));
        }
        if let Payload::TrackName(bytes) = track[i].kind {
            return Some(bytes);
        }
        i += 1;
    }
    None
}

/// Picks the track to remap out of the tracks of a file: a copy of the track
/// at `track_number`, or of the first track where no number is given. There
/// is none where the file has no track at that place.
pub fn pick_drum_track<'a, P: Copy>(
    tracks: &Vec<Vec<Event<'a, P>>>,
    track_number: Option<usize>,
) -> (track: Option<Vec<Event<'a, P>>>)
    ensures
        match track {
            Some(events) => picked_index(track_number) < tracks@.len() && events@
                == tracks@[picked_index(track_number)]@,
            None => picked_index(track_number) >= tracks@.len(),
        },
{
    let at = match track_number {
        Some(at) => at,
        None => 0,
    };
    if at >= tracks.len() {
        return None;
    }
    let source = &tracks[at];
    let mut events: Vec<Event<'a, P>> = Vec::new();
    let mut i: usize = 0;
    while i < source.len()
        invariant
            i <= source@.len(),
            events@ == source@.take(i as int),
        decreases source@.len() - i,
    {
        let event = source[i];
        proof {
            assert(source@.take(i as int + 1) == source@.take(i as int).push(source@[i as int]));
        }
        events.push(event);
        i += 1;
    }
    proof {
        assert(source@.take(source@.len() as int) == source@);
    }
    Some(events)
}

/// The index that a track selection stands for: the number given, or 0.
pub open spec fn picked_index(track_number: Option<usize>) -> int {
    match track_number {
        Some(at) => at as int,
        None => 0,
    }
}

/// Remaps one track among the tracks of a file, in place: the track at `track_number` is
/// replaced by its conversion, and every other track stays where and what it
/// was. A track number that the file does not have fails, and the file is
/// left as it was.
pub fn convert_tracks<'a, P: Copy>(
    tracks: &mut Vec<Vec<Event<'a, P>>>,
    conversion_map: &ConversionTable,
    track_number: usize,
) -> (r: Result<(), RemapError>)
    requires
        conversion_map.wf(),
    ensures
        match r {
            Ok(_) => {
                &&& track_number < old(tracks)@.len()
                &&& final(tracks)@.len() == old(tracks)@.len()
                &&& final(tracks)@[track_number as int]@ == converted_track(
                    conversion_map@,
                    old(tracks)@[track_number as int]@,
                )
                &&& forall|i: int|
                    0 <= i < old(tracks)@.len() && i != track_number ==> #[trigger] final(tracks)@[i]
                        == old(tracks)@[i]
            },
            Err(e) => {
                &&& track_number >= old(tracks)@.len()
                &&& e == (RemapError::TrackIndexOutOfRange {
                    index: track_number,
                    tracks: old(tracks)@.len() as usize,
                })
                &&& *final(tracks) == *old(tracks)
            },
        },
{
    let track = match pick_drum_track(tracks, Some(track_number)) {
        Some(track) => track,
        None => {
            return Err(
                RemapError::TrackIndexOutOfRange { index: track_number, tracks: tracks.len() },
            );
        },
    };
    let changed_track = convert_track(&track, conversion_map);
    tracks[track_number] = changed_track;
    Ok(())
}

} // verus!
