use drum_remap::{
    make_conversion_map, make_track_event, substitutions, track_label, track_labels,
    ConversionTable, Event, NoteKind, NoteMessage, Payload, TrackLabel,
};

type Ev = Event<'static, u8>;

fn note(kind: NoteKind, key: u8) -> Ev {
    make_track_event(0, 9, NoteMessage { kind, key, vel: 64 })
}

fn name(bytes: &'static [u8]) -> Ev {
    Event { delta: 0, kind: Payload::TrackName(bytes) }
}

fn other(what: u8) -> Ev {
    Event { delta: 0, kind: Payload::Other(what) }
}

#[test]
fn label_of_a_named_track() {
    let track = vec![other(1), name("Batterie é".as_bytes()), name(b"Second")];
    assert_eq!(track_label(&track), TrackLabel::Name("Batterie é"));
    assert_eq!(track_label(&vec![name(b"")]), TrackLabel::Name(""));
}

#[test]
fn label_of_a_name_that_is_no_text() {
    let track = vec![name(b"Dr\xffms"), name(b"Drums")];
    assert_eq!(track_label(&track), TrackLabel::BadString(b"Dr\xffms"));
    // a lone continuation byte, a truncated sequence, an overlong form, a surrogate
    for bytes in [&b"\x80"[..], &b"\xe2\x82"[..], &b"\xc0\xaf"[..], &b"\xed\xa0\x80"[..]] {
        assert_eq!(track_label(&vec![name(bytes)]), TrackLabel::BadString(bytes));
    }
}

#[test]
fn label_of_a_track_without_name() {
    assert_eq!(track_label(&vec![other(1), note(NoteKind::NoteOn, 36)]), TrackLabel::NoEventFound);
    let empty: Vec<Ev> = vec![];
    assert_eq!(track_label(&empty), TrackLabel::NoEventFound);
}

#[test]
fn labels_of_all_tracks() {
    let tracks = vec![vec![name(b"Lead")], vec![], vec![other(0), name(b"\xfe")]];
    assert_eq!(
        track_labels(&tracks),
        vec![TrackLabel::Name("Lead"), TrackLabel::NoEventFound, TrackLabel::BadString(b"\xfe")]
    );
    let none: Vec<Vec<Ev>> = vec![];
    assert_eq!(track_labels(&none), vec![]);
}

#[test]
fn substitutions_list_every_hit_in_order() {
    let table = make_conversion_map("36 Kick\n38 Snare\n42 Hat", "40 Kick\n42 Hat").unwrap();
    let track = vec![
        name(b"Drums"),
        note(NoteKind::NoteOn, 36),
        note(NoteKind::NoteOn, 50),
        other(36),
        note(NoteKind::Aftertouch, 38),
        note(NoteKind::NoteOff, 36),
        note(NoteKind::NoteOn, 42),
    ];
    assert_eq!(substitutions(&track, &table), vec![(36, 40), (38, 38), (36, 40), (42, 42)]);
    assert_eq!(substitutions(&track, &ConversionTable::new()), vec![]);
    let empty: Vec<Ev> = vec![];
    assert_eq!(substitutions(&empty, &table), vec![]);
}
