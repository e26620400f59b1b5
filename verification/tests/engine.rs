use autosample::engine::{
    build_file_path, build_sample_dir, build_sample_filename, generate_jobs, midi_note_to_name,
    AutosampleEngine,
};
use autosample::types::{OutputOrganization, SampleJob};

fn job(note: u8, velocity: u8, rr_index: u32) -> SampleJob {
    SampleJob { note, velocity, rr_index }
}

#[test]
fn jobs_run_notes_then_velocities_then_takes() {
    let jobs = generate_jobs(&[60, 62], &[127, 64], 2);
    assert_eq!(jobs.len(), 8);
    assert_eq!(jobs[0], job(60, 127, 1));
    assert_eq!(jobs[1], job(60, 127, 2));
    assert_eq!(jobs[2], job(60, 64, 1));
    assert_eq!(jobs[3], job(60, 64, 2));
    assert_eq!(jobs[4], job(62, 127, 1));
    assert_eq!(jobs[7], job(62, 64, 2));
}

#[test]
fn job_count_is_the_product() {
    let jobs = generate_jobs(&[48, 49, 50], &[100, 90, 80, 70], 3);
    assert_eq!(jobs.len(), 3 * 4 * 3);
}

#[test]
fn no_takes_means_no_jobs() {
    assert!(generate_jobs(&[60], &[100], 0).is_empty());
    assert!(generate_jobs(&[], &[100], 4).is_empty());
    assert!(generate_jobs(&[60], &[], 4).is_empty());
}

#[test]
fn note_names_use_s_for_sharps() {
    assert_eq!(midi_note_to_name(60), "C4");
    assert_eq!(midi_note_to_name(61), "Cs4");
    assert_eq!(midi_note_to_name(0), "C-1");
    assert_eq!(midi_note_to_name(127), "G9");
    assert_eq!(midi_note_to_name(70), "As4");
}

#[test]
fn file_names_follow_the_documented_pattern() {
    assert_eq!(
        build_sample_filename("sample", &job(60, 100, 1), "wav"),
        "sample_C4_060_vel100_rr01.wav"
    );
    assert_eq!(
        build_sample_filename("sample", &job(61, 127, 2), "mp3"),
        "sample_Cs4_061_vel127_rr02.mp3"
    );
    assert_eq!(build_sample_filename("p", &job(5, 7, 123), "wav"), "p_F-1_005_vel007_rr123.wav");
}

#[test]
fn flat_organization_keeps_everything_in_samples() {
    assert_eq!(build_sample_dir(OutputOrganization::Flat, &job(61, 127, 1)), vec!["samples"]);
}

#[test]
fn by_note_organization_adds_a_note_directory() {
    assert_eq!(
        build_sample_dir(OutputOrganization::ByNote, &job(61, 127, 1)),
        vec!["samples", "Cs4_061"]
    );
}

#[test]
fn by_note_velocity_organization_adds_a_velocity_directory() {
    assert_eq!(
        build_sample_dir(OutputOrganization::ByNoteVelocity, &job(60, 64, 1)),
        vec!["samples", "C4_060", "vel064"]
    );
}

#[test]
fn file_paths_end_with_the_file_name() {
    assert_eq!(
        build_file_path("sample", OutputOrganization::ByNote, &job(60, 100, 1), "wav"),
        vec!["samples", "C4_060", "sample_C4_060_vel100_rr01.wav"]
    );
}

#[test]
fn cancel_is_seen_and_can_be_cleared() {
    let engine = AutosampleEngine::new();
    assert!(!engine.is_cancelled());
    engine.cancel();
    assert!(engine.is_cancelled());
    engine.reset_cancel();
    assert!(!engine.is_cancelled());
}
