use autosample::midi::port_listing;
use autosample::parse::note_name_to_midi;
use autosample::text::{
    chars_of, concat_str, is_blank, parse_int_range, push_decimal, push_signed, trimmed,
    IntErrorKind,
};
use autosample::types::OutputOrganization;

#[test]
fn case_mapping_goes_through_std() {
    // Note names are read upper-cased, organization words lower-cased.
    assert_eq!(note_name_to_midi("c#4"), Ok(61));
    assert_eq!(note_name_to_midi("as3"), Ok(58));
    assert_eq!(OutputOrganization::from_str("By-Note"), Ok(OutputOrganization::ByNote));
    assert_eq!(OutputOrganization::from_str("FLAT"), Ok(OutputOrganization::Flat));
}

#[test]
fn strings_from_characters() {
    assert_eq!(port_listing(7, &Some("a€b".to_string())), "[7] a€b");
    assert_eq!(concat_str("ab", "cd"), "abcd");
    assert_eq!(trimmed("  x y \t"), "x y");
    assert!(is_blank(" \n "));
    assert!(!is_blank(" a "));
}

#[test]
fn integers_are_read_as_std_reads_them() {
    let s = chars_of("-128");
    assert_eq!(parse_int_range(&s, 0, s.len(), -128, 127), Ok(-128));
    let s = chars_of("128");
    assert_eq!(parse_int_range(&s, 0, s.len(), -128, 127), Err(IntErrorKind::PosOverflow));
    let s = chars_of("-129");
    assert_eq!(parse_int_range(&s, 0, s.len(), -128, 127), Err(IntErrorKind::NegOverflow));
    let s = chars_of("+");
    assert_eq!(parse_int_range(&s, 0, s.len(), 0, 255), Err(IntErrorKind::InvalidDigit));
    let s = chars_of("-1");
    assert_eq!(parse_int_range(&s, 0, s.len(), 0, 255), Err(IntErrorKind::InvalidDigit));
}

#[test]
fn numbers_are_written_in_decimal() {
    let mut out = Vec::new();
    push_decimal(&mut out, 7, 3);
    push_signed(&mut out, -42);
    push_decimal(&mut out, 12345, 2);
    assert_eq!(out, chars_of("007-4212345"));
}
