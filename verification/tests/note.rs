use datagraph::note::{MidiNote, Note};

#[test]
fn note_c4_is_note_60() {
    let note: Note = Note::from_name("C4").unwrap();
    assert_eq!(60, *note.midi());
}

#[test]
fn notename_c0_is_note_12() {
    let note: Note = Note::from_name("C0").unwrap();
    assert_eq!(12, *note.midi());
}

#[test]
fn notename_c4_is_note_60() {
    let note: Note = Note::from_name("C4").unwrap();
    assert_eq!(60, *note.midi());
}

#[test]
fn midi_12_is_c0() {
    let note = MidiNote::from(12u8)
        .to_note()
        .expect("Can't convert MIDI note 12 to Note");
    assert_eq!(Note::C0, note);
}

#[test]
fn sharps_and_high_octaves_are_named() {
    assert_eq!(Note::from_name("C#0"), Some(Note::CSharp0));
    assert_eq!(Note::from_name("A4").map(|n| *n.midi()), Some(69));
    assert_eq!(Note::from_name("B9"), Some(Note::B9));
    assert_eq!(*Note::B9.midi(), 131);
}

#[test]
fn malformed_names_are_refused() {
    assert_eq!(Note::from_name(""), None);
    assert_eq!(Note::from_name("C"), None);
    assert_eq!(Note::from_name("H4"), None);
    assert_eq!(Note::from_name("Cb4"), None);
    assert_eq!(Note::from_name("C#"), None);
    assert_eq!(Note::from_name("4"), None);
}

#[test]
fn midi_numbers_outside_the_ten_octaves_have_no_note() {
    assert_eq!(MidiNote::from(131u8).to_note(), Some(Note::B9));
    assert_eq!(MidiNote::from(132u8).to_note(), None);
    assert_eq!(MidiNote::from(255u8).to_note(), None);
}

#[test]
fn midi_round_trip_on_every_note() {
    for n in 12u8..132 {
        let note = MidiNote::from(n).to_note().unwrap();
        assert_eq!(*note.midi(), n);
        assert_eq!(MidiNote::from(note).number(), n);
    }
}

#[test]
fn index_and_position_agree() {
    assert_eq!(Note::C0.index(), 0);
    assert_eq!(Note::from_index(57), Note::A4);
    assert_eq!(Note::A4.index(), 57);
}
