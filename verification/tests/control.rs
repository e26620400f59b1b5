use autosample::control::{
    progress_lines,
    audio_device_label,
    all_notes_off_step, desired_meter_key, meter_action, permission_banner, readiness_check,
    run_controls, samples_output_dir, status_text, MeterAction, NotesOffStep, PermissionBanner,
    ProbeOutcome, SessionControl, StartDecision,
};
use autosample::state::{AppState, AudioInputPermissionState, DeviceScanState};
use autosample::types::{AudioDeviceInfo, EngineStatus, LogLevel, MidiPortInfo, RunConfig};

const HINT: &str = "Allow microphone access.";

fn ready_state() -> AppState<f32> {
    let mut s = AppState::new(RunConfig::with_trim_threshold(Some(-50.0)));
    s.config.midi_out = "Synth".to_string();
    s.config.audio_in = "Mic".to_string();
    s.set_audio_permission_granted();
    s
}

fn last_log(state: &AppState<f32>) -> (LogLevel, String) {
    let e = state.logs.last().unwrap();
    (e.level, e.message.clone())
}

#[test]
fn a_ready_state_has_an_empty_checklist() {
    let (ready, missing) = readiness_check(&ready_state());
    assert!(ready);
    assert!(missing.is_empty());
}

#[test]
fn the_checklist_names_what_is_missing_in_order() {
    let mut s = AppState::<f32>::new(RunConfig::with_trim_threshold(None));
    s.config.output = "  ".to_string();
    s.config.notes = "".to_string();
    s.config.vel = "abc".to_string();
    s.device_scan_state = DeviceScanState::Scanning;
    let (ready, missing) = readiness_check(&s);
    assert!(!ready);
    assert_eq!(
        missing,
        vec![
            "Select a MIDI output device",
            "Select an audio input device",
            "Grant microphone permission (click \"Request Permission\" above)",
            "Choose an output directory",
            "Enter a note range/list",
            "Enter valid velocity layers (e.g. 127,100,64)",
            "Wait for device refresh to complete",
        ]
    );
}

#[test]
fn the_checklist_rejects_unreadable_notes_and_empty_ranges() {
    let mut s = ready_state();
    s.config.notes = "H4".to_string();
    s.config.vel = "".to_string();
    let (_, missing) = readiness_check(&s);
    assert_eq!(
        missing,
        vec!["Enter a valid note range/list (e.g. C2..C6 or C4,E4,G4)", "Enter velocity layers"]
    );
    s.config.notes = "C5..C4".to_string();
    s.config.vel = "100".to_string();
    let (_, missing) = readiness_check(&s);
    assert_eq!(missing, vec!["Enter a valid note range/list (e.g. C2..C6 or C4,E4,G4)"]);
}

#[test]
fn a_ready_start_launches_with_the_selections() {
    let mut s = ready_state();
    s.config.notes = "C4,E4".to_string();
    s.config.vel = "100,50".to_string();
    let mut ctl = SessionControl::new();
    match ctl.start_session(&mut s, false, 0, HINT, "t".to_string()) {
        StartDecision::Launch { notes, velocities, midi_target } => {
            assert_eq!(notes, vec![60, 64]);
            assert_eq!(velocities, vec![100, 50]);
            assert_eq!(midi_target, "Synth");
        }
        other => panic!("unexpected {:?}", other),
    }
    assert_eq!(s.logs[0].message, "Validated: 2 note(s), 2 velocity layer(s).");
    assert_eq!(last_log(&s), (LogLevel::Info, "Opening MIDI connection for 'Synth'…".to_string()));
    ctl.session_launched(&mut s, "Synth Port", "t".to_string());
    assert_eq!(s.engine_status, EngineStatus::Running);
    assert_eq!(last_log(&s).1, "MIDI connected: Synth Port");
}

#[test]
fn a_start_is_refused_for_each_blocker() {
    let mut ctl = SessionControl::new();
    let mut s = ready_state();
    assert!(matches!(ctl.start_session(&mut s, true, 0, HINT, "t".to_string()), StartDecision::AlreadyRunning));
    assert!(s.logs.is_empty());

    s.device_scan_state = DeviceScanState::Scanning;
    assert!(matches!(ctl.start_session(&mut s, false, 0, HINT, "t".to_string()), StartDecision::Refused));
    assert_eq!(last_log(&s), (LogLevel::Warning, "Start blocked: device refresh is still running.".to_string()));

    let mut s = ready_state();
    s.reset_audio_permission_state();
    assert!(matches!(ctl.start_session(&mut s, false, 0, HINT, "t".to_string()), StartDecision::Refused));
    assert_eq!(
        last_log(&s),
        (LogLevel::Error, "Start blocked: audio input permission is not granted. Allow microphone access.".to_string())
    );

    let mut s = ready_state();
    ctl.stop_session(&mut s, true, 1000, "t".to_string());
    assert!(ctl.stop_requested);
    assert!(matches!(ctl.start_session(&mut s, false, 1500, HINT, "t".to_string()), StartDecision::Refused));
    assert_eq!(last_log(&s), (LogLevel::Warning, "Start blocked: stop is still in progress.".to_string()));
}

#[test]
fn a_start_waits_for_the_backend_to_settle_after_a_stop() {
    let mut ctl = SessionControl::new();
    let mut s = ready_state();
    ctl.stop_session(&mut s, false, 1000, "t".to_string());
    assert!(!ctl.stop_requested);
    assert_eq!(ctl.restart_blocked_until_ms, Some(3000));
    assert_eq!(last_log(&s), (LogLevel::Info, "Stop requested: cancelling active sampling loop.".to_string()));
    match ctl.start_session(&mut s, false, 2500, HINT, "t".to_string()) {
        StartDecision::Settling { remaining_ms } => assert_eq!(remaining_ms, 500),
        other => panic!("unexpected {:?}", other),
    }
    assert!(matches!(ctl.start_session(&mut s, false, 3000, HINT, "t".to_string()), StartDecision::Launch { .. }));
    assert_eq!(ctl.restart_blocked_until_ms, None);
}

#[test]
fn a_start_reports_bad_selections() {
    let mut ctl = SessionControl::new();
    let mut s = ready_state();
    s.config.notes = "X4".to_string();
    assert!(matches!(ctl.start_session(&mut s, false, 0, HINT, "t".to_string()), StartDecision::Refused));
    assert_eq!(last_log(&s), (LogLevel::Error, "Start failed: invalid note range/list: Invalid note name: X".to_string()));

    s.config.notes = "C5..C4".to_string();
    ctl.start_session(&mut s, false, 0, HINT, "t".to_string());
    assert_eq!(last_log(&s).1, "Start failed: note selection resolved to zero notes.");

    s.config.notes = "C4".to_string();
    s.config.vel = "300".to_string();
    ctl.start_session(&mut s, false, 0, HINT, "t".to_string());
    assert_eq!(
        last_log(&s).1,
        "Start failed: invalid velocity layers: number too large to fit in target type"
    );

    s.config.vel = "100..50".to_string();
    ctl.start_session(&mut s, false, 0, HINT, "t".to_string());
    assert_eq!(last_log(&s).1, "Start failed: velocity selection resolved to zero layers.");
}

#[test]
fn a_failed_midi_connection_is_logged() {
    let ctl = SessionControl::new();
    let mut s = ready_state();
    ctl.midi_connection_failed(&mut s, "port busy", "t".to_string());
    assert_eq!(last_log(&s), (LogLevel::Error, "Start failed: MIDI connection failed: port busy".to_string()));
}

#[test]
fn a_pending_stop_completes_when_the_run_ends() {
    let mut ctl = SessionControl::new();
    let mut s = ready_state();
    ctl.stop_session(&mut s, true, 0, "t".to_string());
    ctl.observe_engine(&mut s, true, "t".to_string());
    assert!(ctl.stop_requested);
    ctl.observe_engine(&mut s, false, "t".to_string());
    assert!(!ctl.stop_requested);
    assert_eq!(last_log(&s), (LogLevel::Info, "Stop complete: sampling loop terminated.".to_string()));
}

#[test]
fn clearing_the_project_waits_for_the_teardown() {
    let ctl = SessionControl::new();
    let mut s = ready_state();
    assert!(!ctl.clear_project_requested(&mut s, true, "t".to_string()));
    assert_eq!(
        last_log(&s),
        (LogLevel::Warning, "Clear Project blocked while run teardown is in progress.".to_string())
    );
    assert!(ctl.clear_project_requested(&mut s, false, "t".to_string()));
    assert!(s.logs.is_empty());
    assert_eq!(s.preset_name, "");
}

#[test]
fn the_startup_permission_check_runs_once_and_again_on_request() {
    let mut ctl = SessionControl::new();
    let mut s = ready_state();
    assert!(ctl.permission_frame(&mut s, "t".to_string()));
    assert!(!ctl.permission_frame(&mut s, "t".to_string()));
    s.request_audio_permission_recheck();
    assert!(ctl.permission_frame(&mut s, "t".to_string()));
    assert_eq!(s.audio_permission_state, AudioInputPermissionState::Unknown);
    assert_eq!(last_log(&s), (LogLevel::Info, "Retrying audio permission check…".to_string()));
    let mut ctl = SessionControl::new();
    let mut s = ready_state();
    s.config.audio_in = " ".to_string();
    assert!(!ctl.permission_frame(&mut s, "t".to_string()));
}

#[test]
fn probe_outcomes_set_the_permission() {
    let mut s = ready_state();
    assert_eq!(s.begin_permission_probe(), Some("Mic".to_string()));
    assert_eq!(s.audio_permission_state, AudioInputPermissionState::Checking);
    s.finish_permission_probe(ProbeOutcome::Opened, "Mic", "startup check", HINT, "t".to_string());
    assert!(s.audio_permission_is_granted());
    assert_eq!(last_log(&s), (LogLevel::Info, "Audio input access confirmed (startup check).".to_string()));
    s.finish_permission_probe(
        ProbeOutcome::DeviceUnavailable("not found".to_string()),
        "Mic",
        "startup check",
        HINT,
        "t".to_string(),
    );
    let why = "Could not open input device 'Mic': not found. Allow microphone access.";
    assert_eq!(s.audio_permission_state, AudioInputPermissionState::Denied(why.to_string()));
    assert_eq!(last_log(&s), (LogLevel::Warning, format!("Audio permission check failed: {}", why)));
    s.finish_permission_probe(ProbeOutcome::StreamFailed("busy".to_string()), "Mic", "r", HINT, "t".to_string());
    assert_eq!(
        s.audio_permission_state,
        AudioInputPermissionState::Denied("Audio input stream could not start: busy. Allow microphone access.".to_string())
    );
    assert_eq!(s.audio_permission_menu_status(), "Blocked");
    s.config.audio_in = "".to_string();
    assert_eq!(s.begin_permission_probe(), None);
}

#[test]
fn the_meter_follows_the_settings() {
    let s = ready_state();
    let key = desired_meter_key(&s);
    assert_eq!(key, Some(("Mic".to_string(), 48000, 2)));
    assert!(matches!(meter_action(true, true, key.clone(), &None), MeterAction::Stop));
    assert!(matches!(meter_action(false, false, key.clone(), &None), MeterAction::Stop));
    assert!(matches!(meter_action(false, true, None, &key), MeterAction::Stop));
    assert!(matches!(meter_action(false, true, key.clone(), &key), MeterAction::Keep));
    match meter_action(false, true, key.clone(), &Some(("Mic".to_string(), 44100, 2))) {
        MeterAction::Restart(k) => assert_eq!(k, ("Mic".to_string(), 48000, 2)),
        other => panic!("unexpected {:?}", other),
    }
}

#[test]
fn emergency_silence() {
    let mut s = ready_state();
    assert!(matches!(all_notes_off_step(&mut s, true, "quit command", "t".to_string()), NotesOffStep::CancelRun));
    match all_notes_off_step(&mut s, false, "quit command", "t".to_string()) {
        NotesOffStep::Send(t) => assert_eq!(t, "Synth"),
        other => panic!("unexpected {:?}", other),
    }
    assert_eq!(last_log(&s).1, "Sending All Notes Off for 'Synth' (quit command)");
    s.config.midi_out = "".to_string();
    assert!(matches!(all_notes_off_step(&mut s, false, "r", "t".to_string()), NotesOffStep::Nothing));
}

#[test]
fn the_run_panel() {
    assert_eq!(status_text(EngineStatus::Idle), "Idle");
    assert_eq!(status_text(EngineStatus::Running), "🟢 Running");
    let c = run_controls(EngineStatus::Completed, false);
    assert!(c.start_shown && !c.start_enabled && c.open_folder_shown && !c.stop_shown && c.fix_hint_shown);
    let c = run_controls(EngineStatus::Running, true);
    assert!(!c.start_shown && c.stop_shown && !c.fix_hint_shown);
    let c = run_controls(EngineStatus::Idle, true);
    assert!(c.start_enabled && !c.open_folder_shown);
}

#[test]
fn samples_go_below_the_output_and_prefix() {
    let mut s = ready_state();
    s.config.output = " out ".to_string();
    s.config.prefix = " Piano ".to_string();
    assert_eq!(samples_output_dir(&s), vec!["out", "Piano"]);
    s.config.prefix = "  ".to_string();
    assert_eq!(samples_output_dir(&s), vec!["out"]);
}

#[test]
fn the_permission_banner() {
    let mut s = ready_state();
    assert_eq!(permission_banner(&s), PermissionBanner::Hidden);
    s.reset_audio_permission_state();
    assert_eq!(permission_banner(&s), PermissionBanner::NotChecked);
    s.set_audio_permission_denied("why".to_string());
    assert_eq!(permission_banner(&s), PermissionBanner::Blocked("why".to_string()));
    assert_eq!(s.audio_permission_menu_status(), "Blocked");
}

#[test]
fn the_devices_panel() {
    let mut s = ready_state();
    s.midi_devices = vec![MidiPortInfo { index: 0, name: "IAC".to_string() }];
    s.audio_devices =
        vec![AudioDeviceInfo { index: 0, name: "USB".to_string(), sample_rate: 44100, channels: 1 }];
    s.selected_midi_idx = Some(0);
    s.selected_audio_idx = Some(3);
    s.sync_device_selection();
    assert_eq!(s.config.midi_out, "IAC");
    assert_eq!(s.config.audio_in, "Mic");
    assert_eq!(audio_device_label(&s.audio_devices[0]), "USB (44100 Hz, 1 ch)");
    assert!(s.refresh_enabled());
    assert_eq!(s.device_status_line(), None);
    s.device_scan_state = DeviceScanState::Failed("x".to_string());
    assert_eq!(s.device_status_line(), Some("Device refresh failed: x".to_string()));
    s.device_scan_state = DeviceScanState::Scanning;
    assert!(!s.refresh_enabled());
    assert_eq!(s.device_status_line(), Some("Scanning devices...".to_string()));
    s.engine_status = EngineStatus::Running;
    assert_eq!(s.device_status_line(), Some("Refresh unavailable while running".to_string()));
}

#[test]
fn the_session_and_progress_panels() {
    let mut s = ready_state();
    s.rename_preset("Rhodes".to_string());
    assert_eq!(s.config.prefix, "Rhodes");
    assert_eq!(s.prefix_preview(), "File name prefix: Rhodes");
    s.rename_preset(" ".to_string());
    assert_eq!(s.prefix_preview(), "File name prefix: Untitled");
    s.progress.current_index = 2;
    s.progress.total_samples = 10;
    s.progress.current_note = 61;
    s.progress.current_velocity = 100;
    s.progress.current_rr = 1;
    s.progress.samples_completed = 1;
    assert_eq!(
        progress_lines(&s.progress),
        vec![
            "2/10 samples",
            "Current: Note 61 | Vel 100 | RR 1",
            "✅ Completed: 1",
            "⏭ Skipped: 0",
            "❌ Failed: 0",
        ]
    );
}
