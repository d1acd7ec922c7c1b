//! What a run can report of its work: how the tracks of a file are called,
//! and which notes a conversion replaced.

use vstd::prelude::*;
use vstd::string::StringSliceAdditionalSpecFns;
use vstd::utf8::valid_utf8;
use crate::event::{Event, Payload};
use crate::table::ConversionTable;
use crate::track::{first_track_name, track_name};

verus! {

/// How a track is called in a report.
#[derive(Clone, Copy, Debug, PartialEq, Eq)]
pub enum TrackLabel<'a> {
    /// The track has a name and the name is text.
    Name(&'a str),
    /// The track has a name that is not valid UTF-8; these are its bytes.
    BadString(&'a [u8]),
    /// The track has no track-name event.
    NoEventFound,
}

/// `core::str::from_utf8`: the bytes as text where they are valid UTF-8, and
/// nothing where they are not. The text is made of the very bytes given.
#[verifier::external_body]
fn utf8_text<'a>(bytes: &'a [u8]) -> (text: Option<&'a str>)
    ensures
        text is Some <==> valid_utf8(bytes@),
        text matches Some(s) ==> s.spec_bytes() == bytes@,
{
    core::str::from_utf8(bytes).ok()
}

/// The label that `name` gives a track.
pub open spec fn labelled<'a>(name: Option<&'a [u8]>, label: TrackLabel<'a>) -> bool {
    match name {
        None => label == TrackLabel::<'a>::NoEventFound,
        Some(bytes) => if valid_utf8(bytes@) {
            label matches TrackLabel::Name(text) && text.spec_bytes() == bytes@
        } else {
            label == TrackLabel::BadString(bytes)
        },
    }
}

/// Labels a track by its name: the name as text, its bytes where they are no
/// text, or the remark that the track has none.
pub fn track_label<'a, P>(track: &Vec<Event<'a, P>>) -> (label: TrackLabel<'a>)
    ensures
        labelled(first_track_name(track@), label),
{
    match track_name(track) {
        None => TrackLabel::NoEventFound,
        Some(bytes) => match utf8_text(bytes) {
            Some(text) => TrackLabel::Name(text),
            None => TrackLabel::BadString(bytes),
        },
    }
}

/// Labels every track of a file, in the order of the file.
pub fn track_labels<'a, P>(tracks: &Vec<Vec<Event<'a, P>>>) -> (labels: Vec<TrackLabel<'a>>)
    ensures
        labels@.len() == tracks@.len(),
        forall|i: int|
            0 <= i < tracks@.len() ==> labelled(first_track_name(tracks@[i]@), #[trigger] labels@[i]),
{
    let mut labels: Vec<TrackLabel<'a>> = Vec::new();
    let mut i: usize = 0;
    while i < tracks.len()
        invariant
            i <= tracks@.len(),
            labels@.len() == i,
            forall|j: int|
                0 <= j < i ==> labelled(first_track_name(tracks@[j]@), #[trigger] labels@[j]),
        decreases tracks@.len() - i,
    {
        let label = track_label(&tracks[i]);
        labels.push(label);
        i += 1;
    }
    labels
}

/// The replacements that converting `track` makes, in the order of the
/// events: for every note message whose key has an entry in the table, the
/// key and what the table maps it to. A key that is mapped to itself counts.
pub open spec fn substitutions_of<'a, P>(table: Map<u8, u8>, track: Seq<Event<'a, P>>) -> Seq<
    (u8, u8),
>
    decreases track.len(),
{
    if track.len() == 0 {
        Seq::empty()
    } else {
        let before = substitutions_of(table, track.drop_last());
        match track.last().kind {
            Payload::Note { message, .. } => if table.contains_key(message.key) {
                before.push((message.key, table[message.key]))
            } else {
                before
            },
            _ => before,
        }
    }
}

/// Lists the replacements that converting `track` makes, for a report.
pub fn substitutions<'a, P>(track: &Vec<Event<'a, P>>, conversion_map: &ConversionTable) -> (list:
    Vec<(u8, u8)>)
    requires
        conversion_map.wf(),
    ensures
        list@ == substitutions_of(conversion_map@, track@),
{
    let mut list: Vec<(u8, u8)> = Vec::new();
    let mut i: usize = 0;
    proof {
        assert(track@.take(0) == Seq::<Event<'a, P>>::empty());
    }
    while i < track.len()
        invariant
            conversion_map.wf(),
            i <= track@.len(),
            list@ == substitutions_of(conversion_map@, track@.take(i as int)),
        decreases track@.len() - i,
    {
        proof {
            let upto = track@.take(i as int + 1);
            assert(upto.drop_last() == track@.take(i as int));
            assert(upto.last() == track@[i as int]);
        }
        if let Payload::Note { message, .. } = track[i].kind {
            if let Some(to) = conversion_map.get(message.key) {
                list.push((message.key, to));
            }
        }
        i += 1;
    }
    proof {
        assert(track@.take(track@.len() as int) == track@);
    }
    list
}

} // verus!
