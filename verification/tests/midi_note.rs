use autosample::midi_note::{
    note_directory_name, take_exists,
    format_filename, parse_notes, parse_velocities, try_parse_notes, try_parse_velocities,
    MidiNote, NoteSpecError,
};

#[test]
fn test_note_parsing() {
    assert_eq!(MidiNote::from_name("C4").unwrap().0, 60);
    assert_eq!(MidiNote::from_name("A4").unwrap().0, 69);
    assert_eq!(MidiNote::from_name("C#4").unwrap().0, 61);
    assert_eq!(MidiNote::from_name("Bb4").unwrap().0, 70);
}

#[test]
fn test_note_range() {
    let notes = parse_notes("C4..E4").unwrap();
    assert_eq!(notes.len(), 5); // C, C#, D, D#, E
    assert_eq!(notes[0].0, 60);
    assert_eq!(notes[4].0, 64);
}

#[test]
fn test_velocity_range() {
    let vels = parse_velocities("127..100:10").unwrap();
    assert_eq!(vels, vec![127, 117, 107]);
}

#[test]
fn test_velocity_list() {
    let vels = parse_velocities("127,100,80").unwrap();
    assert_eq!(vels, vec![127, 100, 80]);
}

#[test]
fn test_filename_format() {
    let name = format_filename("Piano", MidiNote(60), 127, 1, "wav");
    assert_eq!(name, "Piano_C4_060_vel127_rr01.wav");
}

#[test]
fn names_of_notes() {
    assert_eq!(MidiNote(61).to_name(), "C#4");
    assert_eq!(MidiNote(0).to_name(), "C-1");
    assert_eq!(MidiNote(127).to_name(), "G9");
    assert_eq!(
        format_filename("Keys", MidiNote(61), 5, 12, "mp3"),
        "Keys_Cs4_061_vel005_rr12.mp3"
    );
}

#[test]
fn reading_names() {
    assert_eq!(MidiNote::from_name(" eb4 "), Some(MidiNote(63)));
    assert_eq!(MidiNote::from_name("B4"), Some(MidiNote(71)));
    assert_eq!(MidiNote::from_name("H4"), None);
    assert_eq!(MidiNote::from_name(""), None);
    assert_eq!(MidiNote::from_name("C-2"), None);
    // i8 arithmetic overflows for octaves at 10 and above
    assert_eq!(MidiNote::try_from_name("C10"), None);
    assert_eq!(MidiNote::try_from_name("A9"), None);
    assert_eq!(MidiNote::try_from_name("ü4"), None);
    assert_eq!(MidiNote::try_from_name("G9"), Some(Some(MidiNote(127))));
}

#[test]
fn note_specification_errors() {
    assert_eq!(parse_notes("E4..C4"), Err(NoteSpecError::StartAfterEnd));
    assert_eq!(
        parse_notes("X4..C4"),
        Err(NoteSpecError::InvalidStartNote("X4".to_string()))
    );
    assert_eq!(
        parse_notes("C4..X4"),
        Err(NoteSpecError::InvalidEndNote("X4".to_string()))
    );
    assert_eq!(
        parse_notes("C4, X4"),
        Err(NoteSpecError::InvalidNote(" X4".to_string()))
    );
    assert_eq!(
        parse_notes("C4..D4..E4"),
        Err(NoteSpecError::InvalidNoteRange("C4..D4..E4".to_string()))
    );
    assert_eq!(try_parse_notes("A9"), None);
}

#[test]
fn velocity_specification_rules() {
    assert_eq!(parse_velocities("1..4").unwrap(), vec![1, 2, 3, 4]);
    assert_eq!(parse_velocities("0..4"), Err(NoteSpecError::VelocityOutOfRange));
    assert_eq!(parse_velocities("128"), Err(NoteSpecError::VelocityOutOfRange));
    assert_eq!(parse_velocities("5,0"), Err(NoteSpecError::VelocityOutOfRange));
    assert_eq!(parse_velocities(" 5"), Err(NoteSpecError::InvalidNumber(autosample::text::IntErrorKind::InvalidDigit)));
    // `end - step` underflows, and a zero step never ends
    assert_eq!(try_parse_velocities("1..5:10"), None);
    assert_eq!(try_parse_velocities("1..5:0"), None);
    assert_eq!(try_parse_velocities("127..100:129"), Some(Ok(vec![127])));
    assert_eq!(try_parse_velocities("127..126:200"), None);
    assert_eq!(parse_velocities("1..10:4").unwrap(), vec![1, 5, 9]);
}

#[test]
fn every_note_name_reads_back() {
    for n in 0..=127u8 {
        assert_eq!(MidiNote::from_name(&MidiNote(n).to_name()), Some(MidiNote(n)));
    }
}

#[test]
fn note_folders_and_existing_takes() {
    assert_eq!(note_directory_name(MidiNote(61)), "061_C#4");
    assert_eq!(note_directory_name(MidiNote(0)), "000_C-1");
    assert!(take_exists(false, true));
    assert!(take_exists(true, false));
    assert!(!take_exists(false, false));
}

#[test]
fn standalone_stepped_ranges_follow_their_closed_form() {
    for a in 1..=127u32 {
        for b in [1u32, 2, 50, 127] {
            for s in [1u32, 2, 9, 42] {
                if (a <= b && s > b) || (a > b && b + s > 255) {
                    continue;
                }
                let v = parse_velocities(&format!("{}..{}:{}", a, b, s)).unwrap();
                let expected: Vec<u8> = if a > b {
                    (0..=(a - b) / s).map(|i| (a - i * s) as u8).collect()
                } else {
                    (0..=(b - a) / s).map(|i| (a + i * s) as u8).collect()
                };
                assert_eq!(v, expected, "{}..{}:{}", a, b, s);
            }
        }
    }
    assert_eq!(parse_velocities("100..97").unwrap(), vec![100, 99, 98, 97]);
    assert_eq!(parse_velocities("1..127:42").unwrap(), vec![1, 43, 85, 127]);
}
