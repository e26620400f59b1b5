use autosample::parse::{
    note_name_to_midi, parse_notes, parse_velocities, read_upper_note, stepped_values,
    try_parse_notes, try_parse_velocities, ParseError,
};
use autosample::engine::midi_note_to_name;
use autosample::text::IntErrorKind;

#[test]
fn test_parse_single_note() {
    assert_eq!(parse_notes("C4").unwrap(), vec![60]);
    assert_eq!(parse_notes("A4").unwrap(), vec![69]);
}

#[test]
fn test_parse_note_range() {
    let notes = parse_notes("C4..E4").unwrap();
    assert_eq!(notes, vec![60, 61, 62, 63, 64]);
}

#[test]
fn test_parse_note_list() {
    let notes = parse_notes("C4,E4,G4").unwrap();
    assert_eq!(notes, vec![60, 64, 67]);
}

#[test]
fn test_parse_velocities_range_step() {
    let vels = parse_velocities("127..1:8").unwrap();
    assert!(vels.contains(&127));
    assert!(vels.contains(&119));
    assert_eq!(vels[0], 127);
}

#[test]
fn test_parse_velocities_list() {
    let vels = parse_velocities("127,100,64").unwrap();
    assert_eq!(vels, vec![127, 100, 64]);
}

#[test]
fn note_names_ignore_case_and_whitespace() {
    assert_eq!(note_name_to_midi("  c#4 "), Ok(61));
    assert_eq!(note_name_to_midi("cs4"), Ok(61));
    assert_eq!(note_name_to_midi("C-1"), Ok(0));
    assert_eq!(note_name_to_midi("G9"), Ok(127));
}

#[test]
fn note_name_errors() {
    assert_eq!(
        note_name_to_midi("H4"),
        Err(ParseError::InvalidNoteName("H".to_string()))
    );
    assert_eq!(
        note_name_to_midi("Cx"),
        Err(ParseError::InvalidOctave("CX".to_string()))
    );
    // a flat written with B is not read as an accidental: the octave is then "B4"
    assert_eq!(
        note_name_to_midi("Db4"),
        Err(ParseError::InvalidOctave("DB4".to_string()))
    );
    assert_eq!(note_name_to_midi("A9"), Err(ParseError::NoteOutOfRange(129)));
    assert_eq!(note_name_to_midi("C-2"), Err(ParseError::NoteOutOfRange(-12)));
}

#[test]
fn note_reading_that_cannot_finish() {
    // an empty name is sliced past its end, a wide first letter is split
    assert_eq!(try_parse_notes(""), None);
    assert_eq!(try_parse_notes("C4,"), None);
    assert_eq!(try_parse_notes("€4"), None);
    // (octave + 1) * 12 overflows i32
    assert_eq!(try_parse_notes("C2147483647"), None);
    assert_eq!(read_upper_note(&"C4".chars().collect()), Some(Ok(60)));
}

#[test]
fn note_ranges() {
    assert_eq!(parse_notes(" C4..C4 ").unwrap(), vec![60]);
    assert_eq!(parse_notes("E4..C4").unwrap(), Vec::<u8>::new());
    assert_eq!(
        parse_notes("C4..D4..E4"),
        Err(ParseError::InvalidNoteRange("C4..D4..E4".to_string()))
    );
    assert_eq!(
        parse_notes("C4,X4"),
        Err(ParseError::InvalidNoteName("X".to_string()))
    );
}

#[test]
fn stepped_velocity_ranges() {
    assert_eq!(
        parse_velocities("127..1:8").unwrap(),
        vec![127, 119, 111, 103, 95, 87, 79, 71, 63, 55, 47, 39, 31, 23, 15, 7]
    );
    assert_eq!(parse_velocities("1..20:8").unwrap(), vec![1, 9, 17]);
    // ascending stops once the next value would pass 127
    assert_eq!(parse_velocities("100..200:20").unwrap(), vec![100, 120]);
    assert_eq!(parse_velocities("130..140:0").unwrap(), vec![130]);
    assert_eq!(try_parse_velocities("1..5:0"), None);
    assert_eq!(try_parse_velocities("127..1:0"), None);
    assert_eq!(try_parse_velocities("200..250:100"), None);
    assert_eq!(stepped_values(10, 0, 5), Some(vec![10, 5, 0]));
}

#[test]
fn plain_velocity_ranges_and_errors() {
    assert_eq!(parse_velocities("64..67").unwrap(), vec![64, 65, 66, 67]);
    assert_eq!(parse_velocities("100").unwrap(), vec![100]);
    assert_eq!(
        parse_velocities("300"),
        Err(ParseError::InvalidNumber(IntErrorKind::PosOverflow))
    );
    assert_eq!(
        parse_velocities(""),
        Err(ParseError::InvalidNumber(IntErrorKind::Empty))
    );
    assert_eq!(
        parse_velocities("1,x"),
        Err(ParseError::InvalidNumber(IntErrorKind::InvalidDigit))
    );
    assert_eq!(
        parse_velocities("1..2..3"),
        Err(ParseError::InvalidVelocityRange("1..2..3".to_string()))
    );
    assert_eq!(
        parse_velocities("1..2:3:4"),
        Err(ParseError::InvalidVelocityRange("1..2:3:4".to_string()))
    );
    assert_eq!(parse_velocities("+5").unwrap(), vec![5]);
}

#[test]
fn rejection_texts() {
    assert_eq!(note_name_to_midi("H4").unwrap_err().message(), "Invalid note name: H");
    assert_eq!(note_name_to_midi("Cx").unwrap_err().message(), "Invalid octave in note: CX");
    assert_eq!(note_name_to_midi("C-2").unwrap_err().message(), "MIDI note out of range: -12");
    assert_eq!(
        parse_notes("C4..D4..E4").unwrap_err().message(),
        "Invalid note range format: C4..D4..E4"
    );
    assert_eq!(
        parse_velocities("1..2..3").unwrap_err().message(),
        "Invalid velocity range format: 1..2..3"
    );
    assert_eq!(parse_velocities("").unwrap_err().message(), "cannot parse integer from empty string");
    assert_eq!(parse_velocities("x").unwrap_err().message(), "invalid digit found in string");
    assert_eq!(parse_velocities("256").unwrap_err().message(), "number too large to fit in target type");
}

#[test]
fn stepped_ranges_follow_their_closed_form() {
    for a in 0..=255u32 {
        for b in [0u32, 1, 7, 64, 127] {
            for s in [1u32, 3, 8, 16, 100] {
                if !(a > b || (b <= 127 && a + s <= 255)) {
                    continue;
                }
                let v = parse_velocities(&format!(" {}..{}:{} ", a, b, s)).unwrap();
                let expected: Vec<u8> = if a > b {
                    (0..=(a - b) / s).map(|i| (a - i * s) as u8).collect()
                } else {
                    (0..=(b - a) / s).map(|i| (a + i * s) as u8).collect()
                };
                assert_eq!(v, expected, "{}..{}:{}", a, b, s);
            }
        }
    }
}

#[test]
fn plain_ranges_list_every_value() {
    assert_eq!(parse_velocities("64..127").unwrap().len(), 64);
    assert_eq!(parse_velocities("200..255").unwrap(), (200..=255u8).collect::<Vec<u8>>());
    assert!(parse_velocities("9..3").unwrap().is_empty());
}

#[test]
fn file_note_names_read_back() {
    for n in 0..=127u8 {
        assert_eq!(note_name_to_midi(&midi_note_to_name(n)), Ok(n));
        assert_eq!(parse_notes(&midi_note_to_name(n)).unwrap(), vec![n]);
    }
}
