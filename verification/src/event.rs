//! The events of a track, as far as remapping looks into them.
//!
//! Three kinds of channel message carry a note key: note-off, note-on and
//! aftertouch. A track name is told apart because it labels a track in
//! reports. Every other payload is carried as a value of the caller's type
//! `P`, which the library copies and never opens.

use vstd::prelude::*;

verus! {

/// Which of the three messages about a note a message is.
#[derive(Clone, Copy, Debug, PartialEq, Eq, Structural)]
pub enum NoteKind {
    /// Stop playing the note.
    NoteOff,
    /// Start playing the note.
    NoteOn,
    /// Change the pressure on the note while it is held.
    Aftertouch,
}

/// A channel message that carries a note key.
#[derive(Clone, Copy, Debug, PartialEq, Eq, Structural)]
pub struct NoteMessage {
    /// What the message asks for.
    pub kind: NoteKind,
    /// The note it is about.
    pub key: u8,
    /// The velocity of a note-on or note-off, the pressure of an aftertouch.
    pub vel: u8,
}

/// What an event carries.
#[derive(Clone, Copy, Debug, PartialEq, Eq)]
pub enum Payload<'a, P> {
    /// A message about one note on one channel.
    Note { channel: u8, message: NoteMessage },
    /// The name of the track, as the bytes stored in the file.
    TrackName(&'a [u8]),
    /// Any other payload.
    Other(P),
}

/// One event of a track: its payload and the time since the event before it.
#[derive(Clone, Copy, Debug, PartialEq, Eq)]
pub struct Event<'a, P> {
    /// The ticks since the previous event.
    pub delta: u32,
    /// The payload.
    pub kind: Payload<'a, P>,
}

impl<'a, P> Event<'a, P> {
    /// The event fits the file format: a delta of 28 bits, a channel of 4
    /// bits, key and velocity of 7 bits.
    pub open spec fn in_range(self) -> bool {
        &&& self.delta < 0x1000_0000
        &&& self.kind matches Payload::Note { channel, message } ==> channel <= 15 && message.key
            <= 127 && message.vel <= 127
    }
}

impl<'a, P> Event<'a, P> {
    /// Tells whether the event fits the file format.
    pub fn fits_format(&self) -> (fits: bool)
        ensures
            fits == self.in_range(),
    {
        self.delta < 0x1000_0000 && match &self.kind {
            Payload::Note { channel, message } => *channel <= 15 && message.key <= 127
                && message.vel <= 127,
            _ => true,
        }
    }
}

/// Makes the event that sends `message` on `channel`, `delta` ticks after the
/// event before it.
pub fn make_track_event<'a, P>(delta: u32, channel: u8, message: NoteMessage) -> (event: Event<
    'a,
    P,
>)
    ensures
        event == (Event::<'a, P> { delta, kind: Payload::Note { channel, message } }),
{
    Event { delta, kind: Payload::Note { channel, message } }
}

} // verus!
