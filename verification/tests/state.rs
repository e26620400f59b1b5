use autosample::state::{
    resolve_selection_index, AppState, AudioInputPermissionState, DeviceScanResult,
    DeviceScanState, ScanPoll,
};
use autosample::types::{
    AudioDeviceInfo, EngineStatus, LogLevel, MidiPortInfo, ProgressUpdate, RunConfig,
};

fn fresh() -> AppState<f32> {
    AppState::new(RunConfig::with_trim_threshold(Some(-50.0)))
}

fn midi(names: &[&str]) -> Vec<MidiPortInfo> {
    names.iter().enumerate().map(|(i, n)| MidiPortInfo { index: i, name: n.to_string() }).collect()
}

fn audio(names: &[&str]) -> Vec<AudioDeviceInfo> {
    names
        .iter()
        .enumerate()
        .map(|(i, n)| AudioDeviceInfo { index: i, name: n.to_string(), sample_rate: 48000, channels: 2 })
        .collect()
}

fn last_log(state: &AppState<f32>) -> (LogLevel, String) {
    let e = state.logs.last().unwrap();
    (e.level, e.message.clone())
}

#[test]
fn a_new_state_is_idle_with_the_default_settings() {
    let s = fresh();
    assert_eq!(s.engine_status, EngineStatus::Idle);
    assert_eq!(s.preset_name, "sample");
    assert_eq!(s.config.notes, "C4..C5");
    assert_eq!(s.config.vel, "127,100,64");
    assert_eq!(s.config.sr, 48000);
    assert_eq!(s.config.trim_threshold_db, Some(-50.0));
    assert_eq!(s.audio_permission_state, AudioInputPermissionState::Unknown);
    assert!(s.logs.is_empty());
}

#[test]
fn selection_prefers_the_named_device_else_the_first() {
    let names = vec!["A".to_string(), "B".to_string()];
    assert_eq!(resolve_selection_index("B", &names), Some(1));
    assert_eq!(resolve_selection_index("", &names), Some(0));
    assert_eq!(resolve_selection_index("Z", &names), Some(0));
    assert_eq!(resolve_selection_index("A", &Vec::new()), None);
}

#[test]
fn a_refresh_scans_midi_then_waits_for_audio() {
    let mut s = fresh();
    s.config.midi_out = "  Synth  ".to_string();
    let started = s.request_device_scan(|| Ok(midi(&["IAC", "Synth"])), "10:00:00".to_string());
    assert!(started);
    assert_eq!(s.device_scan_state, DeviceScanState::Scanning);
    assert_eq!(s.selected_midi_idx, Some(1));
    assert_eq!(s.config.midi_out, "Synth");
    assert!(s.is_device_scan_running());
    assert_eq!(
        last_log(&s),
        (LogLevel::Info, "Refreshing device list (MIDI cached, audio in background)…".to_string())
    );
    assert_eq!(s.logs[0].timestamp, "10:00:00");
}

#[test]
fn a_refresh_is_refused_while_running_or_scanning() {
    let mut s = fresh();
    s.engine_status = EngineStatus::Running;
    assert!(!s.request_device_scan(|| Ok(midi(&["X"])), "t".to_string()));
    assert_eq!(
        last_log(&s),
        (LogLevel::Warning, "Device refresh ignored: sampling is currently running.".to_string())
    );
    assert!(s.midi_devices.is_empty());
    let mut s = fresh();
    s.device_scan_state = DeviceScanState::Scanning;
    assert!(!s.request_device_scan(|| Ok(midi(&["X"])), "t".to_string()));
    assert_eq!(last_log(&s), (LogLevel::Info, "Device refresh already in progress.".to_string()));
}

#[test]
fn a_midi_scan_error_is_kept_for_the_end_of_the_refresh() {
    let mut s = fresh();
    assert!(s.request_device_scan(|| Err("no backend".to_string()), "t".to_string()));
    assert_eq!(s.logs[0].message, "MIDI scan failed: no backend");
    assert_eq!(s.logs[0].level, LogLevel::Warning);
    s.poll_device_scan_result(
        ScanPoll::Finished(Ok(DeviceScanResult { audio_devices: audio(&["Mic"]) })),
        "t".to_string(),
        1200,
    );
    assert_eq!(s.last_scan_completed_at, Some(1200));
    assert_eq!(s.device_scan_state, DeviceScanState::Failed("MIDI scan failed: no backend".to_string()));
    assert_eq!(s.device_scan_error(), Some("MIDI scan failed: no backend"));
    assert_eq!(
        last_log(&s),
        (LogLevel::Warning, "Device refresh completed with warnings: MIDI scan failed: no backend".to_string())
    );
    assert_eq!(s.config.audio_in, "Mic");
}

#[test]
fn a_finished_refresh_reports_the_counts() {
    let mut s = fresh();
    s.request_device_scan(|| Ok(midi(&["A", "B"])), "t".to_string());
    s.config.audio_in = "Line".to_string();
    s.poll_device_scan_result(
        ScanPoll::Finished(Ok(DeviceScanResult { audio_devices: audio(&["Mic", "Line", "USB"]) })),
        "t".to_string(),
        50,
    );
    assert_eq!(s.last_scan_completed_at, Some(50));
    assert_eq!(s.device_scan_state, DeviceScanState::Idle);
    assert_eq!(s.selected_audio_idx, Some(1));
    assert_eq!(last_log(&s), (LogLevel::Info, "Device refresh complete: 2 MIDI, 3 audio.".to_string()));
}

#[test]
fn a_pending_poll_changes_nothing() {
    let mut s = fresh();
    s.request_device_scan(|| Ok(midi(&["A"])), "t".to_string());
    let logs = s.logs.len();
    assert_eq!(s.last_scan_completed_at, None);
    s.poll_device_scan_result(ScanPoll::Pending, "t".to_string(), 7);
    assert_eq!(s.last_scan_completed_at, None);
    assert_eq!(s.device_scan_state, DeviceScanState::Scanning);
    assert_eq!(s.logs.len(), logs);
}

#[test]
fn failed_refreshes_join_their_errors() {
    let mut s = fresh();
    s.request_device_scan(|| Err("m".to_string()), "t".to_string());
    s.poll_device_scan_result(ScanPoll::Finished(Err("Audio scan failed: a".to_string())), "t".to_string(), 9);
    assert_eq!(s.last_scan_completed_at, Some(9));
    assert_eq!(s.device_scan_error(), Some("MIDI scan failed: m; Audio scan failed: a"));
    assert_eq!(last_log(&s).1, "Device refresh failed: MIDI scan failed: m; Audio scan failed: a");

    let mut s = fresh();
    s.request_device_scan(|| Ok(midi(&[])), "t".to_string());
    s.poll_device_scan_result(ScanPoll::Disconnected, "t".to_string(), 11);
    assert_eq!(s.last_scan_completed_at, Some(11));
    assert_eq!(s.device_scan_error(), Some("Device refresh worker disconnected unexpectedly"));
    assert_eq!(
        last_log(&s),
        (LogLevel::Warning, "Device refresh failed: Device refresh worker disconnected unexpectedly".to_string())
    );
}

#[test]
fn no_devices_clear_the_selection() {
    let mut s = fresh();
    s.config.midi_out = "Old".to_string();
    s.apply_midi_scan_result(Vec::new(), "Old");
    assert_eq!(s.selected_midi_idx, None);
    assert_eq!(s.config.midi_out, "");
}

#[test]
fn engine_events_drive_the_progress() {
    let mut s = fresh();
    s.handle_engine_event(ProgressUpdate::<f32>::Started { total_samples: 3 }, "t".to_string());
    assert_eq!(s.engine_status, EngineStatus::Running);
    assert_eq!(s.progress.total_samples, 3);
    s.handle_engine_event(
        ProgressUpdate::<f32>::SampleStarted { index: 1, total: 3, note: 60, velocity: 100, rr: 1 },
        "t".to_string(),
    );
    assert_eq!((s.progress.current_index, s.progress.current_note), (1, 60));
    s.handle_engine_event(
        ProgressUpdate::SampleCompleted { index: 1, total: 3, path: "p".to_string(), peak_db: -3.0f32 },
        "t".to_string(),
    );
    s.handle_engine_event(
        ProgressUpdate::<f32>::SampleSkipped { index: 2, total: 3, path: "q".to_string() },
        "t".to_string(),
    );
    s.handle_engine_event(
        ProgressUpdate::<f32>::SampleFailed { index: 3, total: 3, error: "e".to_string() },
        "t".to_string(),
    );
    assert_eq!(
        (s.progress.samples_completed, s.progress.samples_skipped, s.progress.samples_failed),
        (1, 1, 1)
    );
    s.handle_engine_event(
        ProgressUpdate::<f32>::Log { level: LogLevel::Error, message: "boom".to_string() },
        "12:00:01".to_string(),
    );
    assert_eq!(last_log(&s), (LogLevel::Error, "boom".to_string()));
    assert_eq!(s.logs.last().unwrap().timestamp, "12:00:01");
    s.handle_engine_event(ProgressUpdate::<f32>::Completed { samples_recorded: 1 }, "t".to_string());
    assert_eq!(s.engine_status, EngineStatus::Completed);
    s.handle_engine_event(ProgressUpdate::<f32>::Cancelled, "t".to_string());
    assert_eq!(s.engine_status, EngineStatus::Idle);
    s.handle_engine_event(ProgressUpdate::<f32>::Started { total_samples: 5 }, "t".to_string());
    assert_eq!(s.progress.samples_completed, 0);
    assert_eq!(s.progress.current_note, 60);
}

#[test]
fn a_preset_selects_devices_by_exact_name() {
    let mut s = fresh();
    s.apply_midi_scan_result(midi(&["IAC", "Synth"]), "");
    s.apply_audio_scan_result(DeviceScanResult { audio_devices: audio(&["Mic"]) });
    let mut config = RunConfig::with_trim_threshold(None);
    config.midi_out = "Synth".to_string();
    config.audio_in = "Mic ".to_string();
    config.prefix = "Piano".to_string();
    s.apply_preset(config);
    assert_eq!(s.selected_midi_idx, Some(1));
    assert_eq!(s.selected_audio_idx, None);
    assert_eq!(s.preset_name, "Piano");
    assert_eq!(s.config.trim_threshold_db, None);
}

#[test]
fn clearing_the_project_keeps_the_devices() {
    let mut s = fresh();
    s.apply_midi_scan_result(midi(&["IAC"]), "");
    s.add_log(LogLevel::Info, "x".to_string(), "t".to_string());
    s.engine_status = EngineStatus::Completed;
    s.progress.samples_completed = 4;
    s.clear_project();
    assert!(s.logs.is_empty());
    assert_eq!(s.progress.samples_completed, 0);
    assert_eq!(s.engine_status, EngineStatus::Idle);
    assert_eq!(s.preset_name, "");
    assert_eq!(s.config.prefix, "");
    assert_eq!(s.config.midi_out, "IAC");
    assert_eq!(s.midi_devices.len(), 1);
}

#[test]
fn permission_state_changes() {
    let mut s = fresh();
    s.set_audio_permission_checking();
    assert_eq!(s.audio_permission_state, AudioInputPermissionState::Checking);
    s.set_audio_permission_granted();
    assert!(s.audio_permission_is_granted());
    s.set_audio_permission_denied("no".to_string());
    assert_eq!(s.audio_permission_state, AudioInputPermissionState::Denied("no".to_string()));
    assert!(!s.audio_permission_is_granted());
    s.reset_audio_permission_state();
    assert_eq!(s.audio_permission_state, AudioInputPermissionState::Unknown);
}

#[test]
fn a_recheck_request_is_consumed_once() {
    let mut s = fresh();
    assert!(!s.consume_audio_permission_recheck_requested());
    s.request_audio_permission_recheck();
    assert!(s.consume_audio_permission_recheck_requested());
    assert!(!s.consume_audio_permission_recheck_requested());
}
