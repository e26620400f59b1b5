use autosample::midi::{
    collect_midi_diagnostics, find_device_index,
    all_notes_off_controller_messages, all_notes_off_messages, contains_chars, find_port_index,
    get_midi_ports, init_backoff_total_ms, init_retry_delay_ms, invalidate_port_cache,
    join_comma, midi_init_attempts, note_off_message, note_on_message, port_info_from_listing, port_infos,
    port_listing, port_listings, InitDecision, InitRetry, PortCache,
};
use autosample::types::MidiPortInfo;

#[test]
fn note_messages_carry_status_note_and_velocity() {
    assert_eq!(note_on_message(60, 100, 0), [0x90, 60, 100]);
    assert_eq!(note_on_message(60, 100, 3), [0x93, 60, 100]);
    assert_eq!(note_off_message(61, 0), [0x80, 61, 0]);
    // Only the low four bits of the channel count.
    assert_eq!(note_on_message(1, 2, 0x1F), [0x9F, 1, 2]);
    assert_eq!(note_off_message(1, 0x12), [0x82, 1, 0]);
}

#[test]
fn all_notes_off_covers_every_note_and_channel() {
    let offs = all_notes_off_messages();
    assert_eq!(offs.len(), 128);
    assert_eq!(offs[0], [0x80, 0, 0]);
    assert_eq!(offs[127], [0x80, 127, 0]);
    let ccs = all_notes_off_controller_messages();
    assert_eq!(ccs.len(), 16);
    assert_eq!(ccs[0], [0xB0, 123, 0]);
    assert_eq!(ccs[15], [0xBF, 123, 0]);
}

fn names(v: &[Option<&str>]) -> Vec<Option<String>> {
    v.iter().map(|n| n.map(|s| s.to_string())).collect()
}

#[test]
fn ports_are_found_by_index_first() {
    let ports = names(&[Some("IAC Bus 1"), Some("Synth 2")]);
    assert_eq!(find_port_index(&ports, "1").unwrap(), 1);
    assert_eq!(find_port_index(&ports, "0").unwrap(), 0);
}

#[test]
fn ports_are_found_by_name_part() {
    let ports = names(&[Some("IAC Bus 1"), None, Some("Synth 2"), Some("Synth 3")]);
    assert_eq!(find_port_index(&ports, "Synth").unwrap(), 2);
    assert_eq!(find_port_index(&ports, "3").unwrap(), 3);
    // An index past the end is read as a name part.
    let ports = names(&[Some("Bus 7"), Some("Other")]);
    assert_eq!(find_port_index(&ports, "7").unwrap(), 0);
}

#[test]
fn a_missing_port_lists_the_available_ones() {
    let ports = names(&[Some("IAC Bus 1"), None]);
    let err = find_port_index(&ports, "Nord").unwrap_err();
    assert_eq!(err.requested, "Nord");
    assert_eq!(err.available, vec!["[0] IAC Bus 1", "[1] Unknown"]);
}

#[test]
fn listings_and_joins() {
    assert_eq!(port_listing(12, &Some("Bus".to_string())), "[12] Bus");
    assert_eq!(port_listing(0, &None), "[0] Unknown");
    let lines = port_listings(&names(&[Some("A"), Some("B")]));
    assert_eq!(join_comma(&lines), "[0] A, [1] B");
    assert_eq!(join_comma(&Vec::new()), "");
}

#[test]
fn substring_search_matches_str_contains() {
    let hay: Vec<char> = "Synth 2".chars().collect();
    assert!(contains_chars(&hay, &"nth".chars().collect()));
    assert!(contains_chars(&hay, &Vec::new()));
    assert!(!contains_chars(&hay, &"Nord".chars().collect()));
}

#[test]
fn a_listing_reads_back_as_port_information() {
    let info = port_info_from_listing(3, &port_listing(3, &Some("Synth 2".to_string())));
    assert_eq!(info.index, 3);
    assert_eq!(info.name, "Synth 2");
    // Only the "[<index>] " prefix goes; the name keeps its own digits,
    // brackets and spaces.
    let info = port_info_from_listing(0, "[0] 2nd Synth");
    assert_eq!(info.name, "2nd Synth");
    let info = port_info_from_listing(12, &port_listing(12, &Some("2i2 MIDI".to_string())));
    assert_eq!(info.name, "2i2 MIDI");
    let info = port_info_from_listing(1, "[1] [7] Bus");
    assert_eq!(info.name, "[7] Bus");
    // A line without such a prefix is kept whole.
    assert_eq!(port_info_from_listing(0, "[] Bus").name, "[] Bus");
    assert_eq!(port_info_from_listing(0, "Bus").name, "Bus");
}

fn port(index: usize, name: &str) -> MidiPortInfo {
    MidiPortInfo { index, name: name.to_string() }
}

#[test]
fn the_port_cache_is_fresh_for_three_seconds() {
    let mut cache = PortCache::new();
    let first: Result<Vec<MidiPortInfo>, String> =
        get_midi_ports(&mut cache, 1000, || Ok(vec![port(0, "A")]));
    assert_eq!(first.unwrap()[0].name, "A");
    let cached: Result<Vec<MidiPortInfo>, String> =
        get_midi_ports(&mut cache, 3999, || Ok(vec![port(0, "B")]));
    assert_eq!(cached.unwrap()[0].name, "A");
    let refreshed: Result<Vec<MidiPortInfo>, String> =
        get_midi_ports(&mut cache, 4000, || Ok(vec![port(0, "C")]));
    assert_eq!(refreshed.unwrap()[0].name, "C");
}

#[test]
fn a_failed_enumeration_keeps_the_cache() {
    let mut cache = PortCache::new();
    let _: Result<Vec<MidiPortInfo>, String> =
        get_midi_ports(&mut cache, 0, || Ok(vec![port(0, "A")]));
    let failed: Result<Vec<MidiPortInfo>, String> =
        get_midi_ports(&mut cache, 10_000, || Err("busy".to_string()));
    assert_eq!(failed.unwrap_err(), "busy");
    assert_eq!(cache.cached(0).unwrap()[0].name, "A");
    invalidate_port_cache(&mut cache);
    assert!(cache.cached(0).is_none());
}

#[test]
fn initialisation_backs_off_then_gives_up() {
    assert_eq!(midi_init_attempts(), 10);
    assert_eq!(init_retry_delay_ms(0), Some(50));
    assert_eq!(init_retry_delay_ms(3), Some(350));
    assert_eq!(init_retry_delay_ms(8), Some(1500));
    assert_eq!(init_retry_delay_ms(9), None);
    assert_eq!(init_backoff_total_ms(0), 0);
    assert_eq!(init_backoff_total_ms(3), 350);
    assert_eq!(init_backoff_total_ms(9), 5500);
}

#[test]
fn the_standalone_recorder_finds_outputs_ignoring_case() {
    let ports = names(&[Some("IAC Bus"), None, Some("Nord Stage")]);
    assert_eq!(find_device_index(&ports, "2"), Some(2));
    assert_eq!(find_device_index(&ports, "nord"), Some(2));
    assert_eq!(find_device_index(&ports, "BUS"), Some(0));
    assert_eq!(find_device_index(&ports, "Moog"), None);
    assert_eq!(find_device_index(&ports, "5"), None);
}

#[test]
fn diagnostics_report_the_ports_or_the_error() {
    let lines = collect_midi_diagnostics("Synth", "linux", Ok(vec![port(0, "IAC"), port(1, "Synth")]));
    assert_eq!(
        lines,
        vec![
            "MIDI diagnostics target: 'Synth'",
            "MIDI diagnostics platform: linux",
            "MIDI diagnostics ports detected: 2",
            "MIDI diagnostics port [0]: IAC",
            "MIDI diagnostics port [1]: Synth",
        ]
    );
    let lines = collect_midi_diagnostics("X", "macos", Ok(Vec::new()));
    assert_eq!(lines[3], "MIDI diagnostics warning: backend reports zero MIDI output ports");
    let lines = collect_midi_diagnostics("X", "macos", Err("no client".to_string()));
    assert_eq!(lines.len(), 3);
    assert_eq!(lines[2], "MIDI diagnostics error: backend init failed: no client");
}

#[test]
fn an_enumeration_matches_what_a_connect_keeps() {
    let names = vec![Some("2i2 MIDI".to_string()), None, Some("[x] Bus".to_string())];
    let infos = port_infos(&names);
    let listed: Vec<MidiPortInfo> =
        port_listings(&names).iter().enumerate().map(|(i, s)| port_info_from_listing(i, s)).collect();
    assert_eq!(infos.len(), 3);
    for (a, b) in infos.iter().zip(listed.iter()) {
        assert_eq!((a.index, &a.name), (b.index, &b.name));
    }
    assert_eq!(infos[0].name, "2i2 MIDI");
    assert_eq!((infos[1].index, infos[1].name.as_str()), (1, "Unknown"));
    assert_eq!(infos[2].name, "[x] Bus");
}

#[test]
fn the_init_loop_pauses_between_attempts_and_gives_up_after_ten() {
    let mut retry = InitRetry::new();
    let mut pauses = Vec::new();
    for _ in 0..9 {
        match retry.failed() {
            InitDecision::Retry { pause_ms } => pauses.push(pause_ms),
            other => panic!("unexpected decision {:?}", other),
        }
        if retry.attempt() == 3 {
            assert_eq!(retry.paused_ms(), 350);
        }
    }
    assert_eq!(pauses, vec![50, 100, 200, 350, 500, 700, 900, 1200, 1500]);
    assert_eq!(retry.attempt(), 9);
    assert_eq!(retry.failed(), InitDecision::GiveUp { attempts: 10 });
    assert_eq!(retry.paused_ms(), 5500);
}
