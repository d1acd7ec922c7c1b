//! The ways in which a remapping job can fail inside the library.

use vstd::prelude::*;

verus! {

/// Why a drum map could not be loaded or a track could not be remapped.
#[derive(Clone, Copy, Debug, PartialEq, Eq, Structural)]
pub enum RemapError {
    /// A line of a drum map begins with a note number that is none: above
    /// 127, or written with digits beyond ASCII. `line` counts the lines of
    /// the map from 1.
    MapParse { line: usize },
    /// The bytes given are not a well-formed MIDI file.
    ContainerParse,
    /// The selected track does not exist: `index` was asked for in a file of
    /// `tracks` tracks.
    TrackIndexOutOfRange { index: usize, tracks: usize },
    /// The remapped file cannot be written down as a MIDI file.
    OutputWrite,
}

impl RemapError {
    /// A one-line description for a log or an error stream.
    pub fn message(&self) -> (text: &'static str)
        ensures
            text@ == (match *self {
                RemapError::MapParse { .. } => "drum map holds a note number outside 0..=127"@,
                RemapError::ContainerParse => "input is not a well-formed MIDI file"@,
                RemapError::TrackIndexOutOfRange { .. } => "track index is out of range"@,
                RemapError::OutputWrite => "remapped file cannot be encoded"@,
            }),
    {
        match self {
            RemapError::MapParse { .. } => "drum map holds a note number outside 0..=127",
            RemapError::ContainerParse => "input is not a well-formed MIDI file",
            RemapError::TrackIndexOutOfRange { .. } => "track index is out of range",
            RemapError::OutputWrite => "remapped file cannot be encoded",
        }
    }
}

} // verus!
