use drum_remap::{
    convert_event, convert_tracks, convert_track, get_input_files, make_conversion_map,
    make_track_event, pick_drum_track, track_name, ConversionTable, Event, NoteKind, NoteMessage,
    Payload, RemapError,
};
use std::path::PathBuf;

type Ev = Event<'static, &'static str>;

fn note_on(delta: u32, channel: u8, key: u8, vel: u8) -> Ev {
    make_track_event(delta, channel, NoteMessage { kind: NoteKind::NoteOn, key, vel })
}

fn note_off(delta: u32, channel: u8, key: u8, vel: u8) -> Ev {
    make_track_event(delta, channel, NoteMessage { kind: NoteKind::NoteOff, key, vel })
}

fn aftertouch(delta: u32, channel: u8, key: u8, vel: u8) -> Ev {
    make_track_event(delta, channel, NoteMessage { kind: NoteKind::Aftertouch, key, vel })
}

fn other(delta: u32, what: &'static str) -> Ev {
    Event { delta, kind: Payload::Other(what) }
}

fn name(delta: u32, bytes: &'static [u8]) -> Ev {
    Event { delta, kind: Payload::TrackName(bytes) }
}

fn kick_table() -> ConversionTable {
    make_conversion_map("36 Kick", "40 Kick").unwrap()
}

fn sample_track() -> Vec<Ev> {
    vec![
        name(0, b"Drums"),
        other(0, "tempo"),
        note_on(0, 9, 36, 100),
        aftertouch(10, 9, 36, 64),
        note_off(110, 9, 36, 0),
        note_on(0, 9, 38, 90),
        other(5, "controller 7"),
        note_off(115, 9, 38, 0),
        other(0, "end of track"),
    ]
}

#[test]
fn make_track_event_builds_a_note_event() {
    let message = NoteMessage { kind: NoteKind::NoteOn, key: 36, vel: 100 };
    let event: Ev = make_track_event(7, 9, message);
    assert_eq!(event, Event { delta: 7, kind: Payload::Note { channel: 9, message } });
    assert_eq!(event.delta, 7);
}

#[test]
fn convert_event_looks_the_key_up() {
    let table = kick_table();
    assert_eq!(convert_event(36, &table), 40);
    assert_eq!(convert_event(38, &table), 38);
    assert_eq!(convert_event(40, &table), 40);
    assert_eq!(convert_event(0, &ConversionTable::new()), 0);
    assert_eq!(convert_event(200, &table), 200);
}

#[test]
fn kick_scenario() {
    let table = kick_table();
    let track = vec![note_on(0, 9, 36, 100), note_off(96, 9, 36, 0), note_on(0, 9, 38, 100)];
    let result = convert_track(&track, &table);
    assert_eq!(
        result,
        vec![note_on(0, 9, 40, 100), note_off(96, 9, 40, 0), note_on(0, 9, 38, 100)]
    );
}

#[test]
fn aftertouch_is_converted_too() {
    let result = convert_track(&vec![aftertouch(3, 2, 36, 77)], &kick_table());
    assert_eq!(result, vec![aftertouch(3, 2, 40, 77)]);
}

#[test]
fn count_order_and_deltas_are_kept() {
    let track = sample_track();
    let result = convert_track(&track, &kick_table());
    assert_eq!(result.len(), track.len());
    let deltas: Vec<u32> = result.iter().map(|e| e.delta).collect();
    assert_eq!(deltas, vec![0, 0, 0, 10, 110, 0, 5, 115, 0]);
}

#[test]
fn only_keys_change() {
    let track = sample_track();
    let result = convert_track(&track, &kick_table());
    assert_eq!(
        result,
        vec![
            name(0, b"Drums"),
            other(0, "tempo"),
            note_on(0, 9, 40, 100),
            aftertouch(10, 9, 40, 64),
            note_off(110, 9, 40, 0),
            note_on(0, 9, 38, 90),
            other(5, "controller 7"),
            note_off(115, 9, 38, 0),
            other(0, "end of track"),
        ]
    );
    // the track given is as it was
    assert_eq!(track, sample_track());
}

#[test]
fn key_without_entry_passes_through() {
    let track = vec![note_on(1, 0, 38, 1), note_off(2, 1, 127, 2), aftertouch(3, 2, 0, 3)];
    assert_eq!(convert_track(&track, &kick_table()), track);
    assert_eq!(convert_track(&track, &ConversionTable::new()), track);
}

#[test]
fn identity_table_changes_nothing() {
    let mut table = ConversionTable::new();
    for key in 0u8..=127 {
        assert!(table.insert(key, key));
    }
    let track = sample_track();
    assert_eq!(convert_track(&track, &table), track);
    let table = make_conversion_map("36 Kick\n38 Snare", "").unwrap();
    assert_eq!(convert_track(&track, &table), track);
}

#[test]
fn conversion_is_applied_once() {
    // 36 becomes 38 and stays 38, though 38 has an entry of its own
    let table = make_conversion_map("36 Kick\n38 Snare", "38 Kick\n36 Snare").unwrap();
    let track = vec![note_on(0, 9, 36, 1), note_on(0, 9, 38, 2)];
    assert_eq!(convert_track(&track, &table), vec![note_on(0, 9, 38, 1), note_on(0, 9, 36, 2)]);
}

#[test]
fn empty_track() {
    let track: Vec<Ev> = vec![];
    assert_eq!(convert_track(&track, &kick_table()), vec![]);
    assert_eq!(track_name(&track), None);
}

#[test]
fn track_name_is_the_first_name() {
    assert_eq!(track_name(&sample_track()), Some(&b"Drums"[..]));
    let track = vec![other(0, "x"), name(0, b"\xff\xfe"), name(0, b"Second")];
    assert_eq!(track_name(&track), Some(&b"\xff\xfe"[..]));
    assert_eq!(track_name(&vec![other(0, "x"), note_on(0, 0, 1, 1)]), None);
}

#[test]
fn pick_drum_track_copies_the_chosen_track() {
    let tracks = vec![vec![other(0, "a")], sample_track(), vec![]];
    assert_eq!(pick_drum_track(&tracks, Some(1)), Some(sample_track()));
    assert_eq!(pick_drum_track(&tracks, Some(2)), Some(vec![]));
    assert_eq!(pick_drum_track(&tracks, None), Some(vec![other(0, "a")]));
    assert_eq!(pick_drum_track(&tracks, Some(3)), None);
    let none: Vec<Vec<Ev>> = vec![];
    assert_eq!(pick_drum_track(&none, None), None);
}

#[test]
fn convert_file_replaces_the_track_in_place() {
    let mut tracks = vec![vec![note_on(0, 0, 36, 1)], sample_track(), vec![note_on(0, 0, 36, 2)]];
    assert_eq!(convert_tracks(&mut tracks, &kick_table(), 1), Ok(()));
    assert_eq!(tracks.len(), 3);
    assert_eq!(tracks[0], vec![note_on(0, 0, 36, 1)]);
    assert_eq!(tracks[1], convert_track(&sample_track(), &kick_table()));
    assert_eq!(tracks[1][2], note_on(0, 9, 40, 100));
    assert_eq!(tracks[2], vec![note_on(0, 0, 36, 2)]);
}

#[test]
fn track_index_out_of_range() {
    let mut tracks = vec![vec![note_on(0, 0, 36, 1)], sample_track(), vec![]];
    let before = tracks.clone();
    assert_eq!(
        convert_tracks(&mut tracks, &kick_table(), 5),
        Err(RemapError::TrackIndexOutOfRange { index: 5, tracks: 3 })
    );
    assert_eq!(tracks, before);
    assert_eq!(
        convert_tracks(&mut tracks, &kick_table(), 3),
        Err(RemapError::TrackIndexOutOfRange { index: 3, tracks: 3 })
    );
    let mut none: Vec<Vec<Ev>> = vec![];
    assert_eq!(
        convert_tracks(&mut none, &kick_table(), 0),
        Err(RemapError::TrackIndexOutOfRange { index: 0, tracks: 0 })
    );
}

#[test]
fn input_files_are_the_path_itself() {
    let path = PathBuf::from("songs/beat.mid");
    assert_eq!(get_input_files(&path), Ok(vec![&path]));
}
