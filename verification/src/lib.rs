//! Remaps the percussion notes of one MIDI track from one drum map to another.
//!
//! A drum map is a text table of note numbers and voice names. Two such tables
//! are joined on their shared names into a [`ConversionTable`] from note number
//! to note number, and that table is applied to the note-on, note-off and
//! aftertouch events of one track. Every other event, the timing of all
//! events and every other track are left as they were.
//!
//! The functions that work on tracks are generic in the payload of the events
//! that they do not look into. The [`midi`] module applies them to whole files:
//! it decodes the bytes of a file with the `midly` crate, remaps the chosen
//! track and encodes the file again.

pub mod error;
pub mod event;
pub mod files;
pub mod line;
pub mod map;
pub mod midi;
pub mod note_map;
pub mod report;
pub mod table;
pub mod text;
pub mod track;

pub use error::RemapError;
pub use event::{make_track_event, Event, NoteKind, NoteMessage, Payload};
pub use files::get_input_files;
pub use map::{join_maps, load_file_to_map, make_conversion_map};
pub use midi::{convert_file, fits_format, has_safe_timing, read_file, write_file, MidiFile};
pub use note_map::NoteMap;
pub use report::{substitutions, track_label, track_labels, TrackLabel};
pub use table::ConversionTable;
pub use track::{convert_event, convert_track, convert_tracks, pick_drum_track, track_name};
