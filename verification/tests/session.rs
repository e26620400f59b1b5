use autosample::engine::generate_jobs;
use autosample::session::{
    fade_length_samples, trim_min_tail_samples, export_plan, mp3_gate, needs_mp3, session_ring_capacity, CapturePhase, CaptureRun,
    CaptureStep, ExportPlan, LoopStep, Mp3Gate, RunStage, SampleOutcome, SampleReport, SessionRun,
};
use autosample::types::{OutputFormat, OutputOrganization, SampleJob};

#[test]
fn mp3_is_needed_for_mp3_and_both() {
    assert!(!needs_mp3(OutputFormat::Wav));
    assert!(needs_mp3(OutputFormat::Mp3));
    assert!(needs_mp3(OutputFormat::Both));
}

#[test]
fn missing_ffmpeg_fails_only_mp3_alone() {
    assert_eq!(mp3_gate(OutputFormat::Wav, false), Mp3Gate::Proceed);
    assert_eq!(mp3_gate(OutputFormat::Mp3, true), Mp3Gate::Proceed);
    assert_eq!(mp3_gate(OutputFormat::Both, false), Mp3Gate::WarnAndProceed);
    assert_eq!(mp3_gate(OutputFormat::Mp3, false), Mp3Gate::WarnAndFail);
}

#[test]
fn export_plans_per_format() {
    assert_eq!(export_plan(OutputFormat::Wav), ExportPlan { convert_mp3: false, remove_wav: false });
    assert_eq!(export_plan(OutputFormat::Both), ExportPlan { convert_mp3: true, remove_wav: false });
    assert_eq!(export_plan(OutputFormat::Mp3), ExportPlan { convert_mp3: true, remove_wav: true });
}

#[test]
fn ring_capacity_is_twice_the_longest_capture_plus_a_second() {
    // 48 kHz stereo, 100 + 1000 + 2000 ms + 1 s margin = 4100 ms.
    assert_eq!(session_ring_capacity(48000, 2, 100, 1000, 2000), 2 * 48000 * 2 * 4100 / 1000);
    assert_eq!(session_ring_capacity(44100, 1, 0, 0, 0), 88200);
}

fn jobs() -> Vec<SampleJob> {
    generate_jobs(&[60, 61], &[100], 1)
}

#[test]
fn a_session_runs_every_job_in_order() {
    let mut run = SessionRun::new(jobs(), false);
    assert_eq!(run.total(), 2);
    match run.begin_next(false) {
        LoopStep::Sample { index, total, job, check_existing } => {
            assert_eq!((index, total, job.note, check_existing), (1, 2, 60, false));
        }
        other => panic!("unexpected step {:?}", other),
    }
    assert_eq!(run.stage(), RunStage::Capture);
    assert_eq!(
        run.finish_sample(SampleOutcome::Recorded),
        SampleReport::Completed { index: 1, total: 2 }
    );
    match run.begin_next(false) {
        LoopStep::Sample { index, job, .. } => assert_eq!((index, job.note), (2, 61)),
        other => panic!("unexpected step {:?}", other),
    }
    assert_eq!(
        run.finish_sample(SampleOutcome::ExportFailed),
        SampleReport::Failed { index: 2, total: 2 }
    );
    assert_eq!(run.begin_next(false), LoopStep::AllDone);
    assert_eq!(run.stage(), RunStage::Finished);
    assert_eq!(run.samples_recorded(), 1);
}

#[test]
fn resuming_skips_existing_files() {
    let mut run = SessionRun::new(jobs(), true);
    match run.begin_next(false) {
        LoopStep::Sample { check_existing, .. } => assert!(check_existing),
        other => panic!("unexpected step {:?}", other),
    }
    assert_eq!(run.stage(), RunStage::ExistenceCheck);
    assert_eq!(run.existing_file(true), Some(SampleReport::Skipped { index: 1, total: 2 }));
    run.begin_next(false);
    assert_eq!(run.existing_file(false), None);
    assert_eq!(run.stage(), RunStage::Capture);
    assert_eq!(
        run.finish_sample(SampleOutcome::Recorded),
        SampleReport::Completed { index: 2, total: 2 }
    );
    assert_eq!(run.samples_recorded(), 1);
}

#[test]
fn a_cancel_stops_before_the_next_job() {
    let mut run = SessionRun::new(jobs(), false);
    assert_eq!(run.begin_next(true), LoopStep::Cancelled);
    assert_eq!(run.stage(), RunStage::Finished);
}

#[test]
fn a_capture_failing_under_cancel_stops_the_session() {
    let mut run = SessionRun::new(jobs(), false);
    run.begin_next(false);
    assert_eq!(
        run.finish_sample(SampleOutcome::CaptureFailed { cancelled: true }),
        SampleReport::Cancelled
    );
    assert_eq!(run.stage(), RunStage::Finished);
    let mut run = SessionRun::new(jobs(), false);
    run.begin_next(false);
    assert_eq!(
        run.finish_sample(SampleOutcome::CaptureFailed { cancelled: false }),
        SampleReport::Failed { index: 1, total: 2 }
    );
}

#[test]
fn a_capture_plays_preroll_hold_and_tail() {
    let mut cap = CaptureRun::new(1000, 2, 100, 200, 300);
    assert_eq!(cap.phase(), CapturePhase::Preroll);
    assert_eq!(cap.tick(50, false), CaptureStep::Listen);
    assert_eq!(cap.tick(100, false), CaptureStep::SendNoteOn);
    assert_eq!(cap.phase(), CapturePhase::Hold);
    assert_eq!(cap.tick(199, false), CaptureStep::Listen);
    assert_eq!(cap.tick(200, true), CaptureStep::SendNoteOff);
    assert_eq!(cap.phase(), CapturePhase::Tail);
    // 1000 Hz stereo: 200 + 400 + 600 samples.
    assert_eq!(cap.tick(300, false), CaptureStep::Collect { samples: 1200 });
    assert_eq!(cap.phase(), CapturePhase::Done);
}

#[test]
fn a_cancel_during_capture_silences_what_sounds() {
    let mut cap = CaptureRun::new(48000, 2, 100, 200, 300);
    assert_eq!(cap.tick(10, true), CaptureStep::Abort { note_off: false, all_notes_off: false });
    let mut cap = CaptureRun::new(48000, 2, 100, 200, 300);
    cap.tick(100, false);
    assert_eq!(cap.tick(10, true), CaptureStep::Abort { note_off: true, all_notes_off: true });
    assert_eq!(cap.phase(), CapturePhase::Aborted);
    let mut cap = CaptureRun::new(48000, 2, 100, 200, 300);
    cap.tick(100, false);
    cap.tick(200, false);
    assert_eq!(cap.tick(10, true), CaptureStep::Abort { note_off: false, all_notes_off: true });
}

#[test]
fn capture_sample_counts_round_each_phase_down() {
    // 44.1 kHz mono: 10 ms -> 441, 1 ms -> 44 (44.1 rounded down), 3 ms -> 132.
    let mut cap = CaptureRun::new(44100, 1, 10, 1, 3);
    cap.tick(10, false);
    cap.tick(1, false);
    assert_eq!(cap.tick(3, false), CaptureStep::Collect { samples: 441 + 44 + 132 });
}

#[test]
fn processing_lengths() {
    assert_eq!(trim_min_tail_samples(48000, 2), 9600);
    assert_eq!(trim_min_tail_samples(44100, 1), 4410);
    assert_eq!(fade_length_samples(48000), 240);
    assert_eq!(fade_length_samples(44100), 220);
}

#[test]
fn resuming_checks_the_wav_file_of_the_current_job() {
    let mut run = SessionRun::new(jobs(), true);
    run.begin_next(false);
    assert_eq!(
        run.current_wav_path("sample", OutputOrganization::ByNoteVelocity),
        vec!["samples", "C4_060", "vel100", "sample_C4_060_vel100_rr01.wav"]
    );
    run.existing_file(true);
    run.begin_next(false);
    assert_eq!(
        run.current_wav_path("sample", OutputOrganization::Flat),
        vec!["samples", "sample_Cs4_061_vel100_rr01.wav"]
    );
}

/// Drives a session the way the recording loop does, with the given
/// answers per turn, and lists each turn's step and report.
fn drive(run: &mut SessionRun, inputs: &[(bool, bool, SampleOutcome)]) -> Vec<(LoopStep, Option<SampleReport>)> {
    let mut turns = Vec::new();
    for &(cancelled, exists, outcome) in inputs {
        if run.stage() != RunStage::NextJob {
            break;
        }
        let step = run.begin_next(cancelled);
        let report = match step {
            LoopStep::Sample { .. } => {
                let skipped = if run.stage() == RunStage::ExistenceCheck { run.existing_file(exists) } else { None };
                match skipped {
                    Some(r) => Some(r),
                    None => Some(run.finish_sample(outcome)),
                }
            }
            _ => None,
        };
        turns.push((step, report));
    }
    turns
}

#[test]
fn session_turns_come_in_job_order_and_stop_at_a_cancel() {
    let jobs = generate_jobs(&[60, 61, 62], &[100], 1);
    let mut run = SessionRun::new(jobs.clone(), true);
    let turns = drive(
        &mut run,
        &[
            (false, false, SampleOutcome::Recorded),
            (false, true, SampleOutcome::Recorded),
            (false, false, SampleOutcome::ExportFailed),
            (false, false, SampleOutcome::Recorded),
            (false, false, SampleOutcome::Recorded),
        ],
    );
    assert_eq!(turns.len(), 4);
    let reports: Vec<Option<SampleReport>> = turns.iter().map(|t| t.1).collect();
    assert_eq!(
        reports,
        vec![
            Some(SampleReport::Completed { index: 1, total: 3 }),
            Some(SampleReport::Skipped { index: 2, total: 3 }),
            Some(SampleReport::Failed { index: 3, total: 3 }),
            None,
        ]
    );
    for (i, t) in turns.iter().take(3).enumerate() {
        match t.0 {
            LoopStep::Sample { index, total, job, .. } => assert_eq!((index, total, job), (i + 1, 3, jobs[i])),
            other => panic!("unexpected step {:?}", other),
        }
    }
    assert_eq!(turns[3].0, LoopStep::AllDone);
    assert_eq!(run.samples_recorded(), 1);

    let mut run = SessionRun::new(jobs, false);
    let turns = drive(
        &mut run,
        &[(false, false, SampleOutcome::Recorded), (true, false, SampleOutcome::Recorded), (false, false, SampleOutcome::Recorded)],
    );
    assert_eq!(turns.len(), 2);
    assert_eq!(turns[1], (LoopStep::Cancelled, None));
    assert_eq!(run.stage(), RunStage::Finished);
}

#[test]
fn a_completed_capture_sends_one_note_on_and_one_note_off() {
    let mut cap = CaptureRun::new(1000, 1, 10, 20, 30);
    let mut actions = Vec::new();
    for &(elapsed, cancelled) in &[(0, false), (10, false), (5, false), (25, false), (29, false), (30, false)] {
        let step = cap.tick(elapsed, cancelled);
        if step != CaptureStep::Listen {
            actions.push(step);
        }
    }
    assert_eq!(cap.phase(), CapturePhase::Done);
    assert_eq!(
        actions,
        vec![CaptureStep::SendNoteOn, CaptureStep::SendNoteOff, CaptureStep::Collect { samples: 60 }]
    );
}
