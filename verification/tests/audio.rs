use autosample::audio::{choose_audio_input, AudioInputError};
use autosample::midi::find_port_index;

fn names(v: &[Option<&str>]) -> Vec<Option<String>> {
    v.iter().map(|n| n.map(|s| s.to_string())).collect()
}

#[test]
fn inputs_are_chosen_by_index_first() {
    let inputs = names(&[Some("Mic"), None, Some("Line")]);
    assert_eq!(choose_audio_input(&inputs, "1"), Ok(1));
    assert_eq!(choose_audio_input(&inputs, "2"), Ok(2));
}

#[test]
fn exact_names_win_over_case_and_parts() {
    let inputs = names(&[Some("USB Mic Pro"), Some("usb mic"), Some("USB Mic")]);
    assert_eq!(choose_audio_input(&inputs, "USB Mic"), Ok(2));
    assert_eq!(choose_audio_input(&inputs, "USB MIC"), Ok(1));
    assert_eq!(choose_audio_input(&inputs, "pro"), Ok(0));
}

#[test]
fn several_partial_matches_are_ambiguous() {
    let inputs = names(&[Some("USB Mic 1"), Some("Line"), Some("USB Mic 2")]);
    let err = choose_audio_input(&inputs, "usb").unwrap_err();
    assert_eq!(
        err,
        AudioInputError::Ambiguous {
            requested: "usb".to_string(),
            matches: vec!["USB Mic 1".to_string(), "USB Mic 2".to_string()],
        }
    );
    assert_eq!(
        err.message(),
        "Audio device name 'usb' is ambiguous. Matches: USB Mic 1, USB Mic 2. Select by numeric index instead."
    );
}

#[test]
fn no_match_lists_the_readable_inputs() {
    let inputs = names(&[Some("Mic"), None, Some("Line")]);
    let err = choose_audio_input(&inputs, "Guitar").unwrap_err();
    assert_eq!(err.message(), "Audio device not found: 'Guitar'. Available inputs: Mic, Line");
    let err = choose_audio_input(&Vec::new(), "0").unwrap_err();
    assert_eq!(err.message(), "Audio device not found: '0'. Available inputs: (none)");
}

#[test]
fn midi_port_errors_read_like_the_listing() {
    let err = find_port_index(&names(&[Some("IAC")]), "Nord").unwrap_err();
    assert_eq!(err.message(), "MIDI port not found: 'Nord'. Available ports: [0] IAC");
    let err = find_port_index(&Vec::new(), "Nord").unwrap_err();
    assert_eq!(err.message(), "MIDI port not found: 'Nord'. Available ports: (none)");
}
