use autosample::dsp::{
    fade_frame_count, quarter_fade_frame_count, trim_frames, trim_sample_bounds, NormalizeMode,
};

/// Which samples are louder than `threshold_db`, as the audio code decides.
fn loud_flags(samples: &[f32], threshold_db: f32) -> Vec<bool> {
    let threshold = 10.0f32.powf(threshold_db / 20.0);
    samples.iter().map(|s| s.abs() > threshold).collect()
}

/// Whole-frame trimming of float samples: the sample positions kept.
fn trim_silence(samples: &[f32], channels: usize, threshold_db: f32, min_tail: usize) -> (usize, usize) {
    trim_sample_bounds(&loud_flags(samples, threshold_db), channels, min_tail)
}

#[test]
fn test_trim_silence() {
    let samples = vec![
        0.0, 0.0, 0.0, 0.0, // silence
        0.1, 0.1, 0.5, 0.5, // signal
        0.0, 0.0, 0.0, 0.0, // silence
    ];

    let (start, end) = trim_silence(&samples, 2, -40.0, 0);
    assert_eq!(start, 4); // Start of signal
    assert_eq!(end, 8); // End of signal
}

#[test]
fn whole_frame_trim_adds_the_tail_and_stops_at_the_end() {
    let samples = vec![0.0, 0.0, 0.5, 0.0, 0.0, 0.0, 0.0, 0.0];
    assert_eq!(trim_silence(&samples, 2, -40.0, 2), (2, 6));
    assert_eq!(trim_silence(&samples, 2, -40.0, 100), (2, 8));
}

#[test]
fn whole_frame_trim_of_silence_keeps_everything() {
    let silence = vec![0.0f32; 6];
    assert_eq!(trim_silence(&silence, 2, -40.0, 0), (0, 6));
    assert_eq!(trim_silence(&[], 2, -40.0, 0), (0, 0));
    // A partial frame at the end is dropped.
    assert_eq!(trim_silence(&[0.0, 0.0, 0.9], 2, -40.0, 0), (0, 2));
}

#[test]
fn frame_trim_finds_the_loud_frames() {
    let loud = loud_flags(&[0.0, 0.0, 0.0, 0.0, 0.1, 0.1, 0.5, 0.5, 0.0, 0.0, 0.0, 0.0], -40.0);
    assert_eq!(trim_frames(&loud, 2, 0), (2, 4));
    assert_eq!(trim_frames(&loud, 2, 2), (2, 5));
    assert_eq!(trim_frames(&loud, 2, 100), (2, 6));
}

#[test]
fn frame_trim_of_silence() {
    let loud = vec![false; 8];
    assert_eq!(trim_frames(&loud, 2, 0), (0, 4));
    assert_eq!(trim_frames(&Vec::new(), 2, 0), (0, 0));
}

#[test]
fn normalisation_modes() {
    assert_eq!(NormalizeMode::from_mode("peak"), Some(NormalizeMode::Peak));
    assert_eq!(NormalizeMode::from_mode("-1dB"), Some(NormalizeMode::MinusOneDb));
    assert_eq!(NormalizeMode::from_mode("-1db"), Some(NormalizeMode::MinusOneDb));
    assert_eq!(NormalizeMode::from_mode("PEAK"), None);
    assert_eq!(NormalizeMode::from_lowercase_mode("peak"), Some(NormalizeMode::Peak));
    assert_eq!(NormalizeMode::from_lowercase_mode("-1db"), Some(NormalizeMode::MinusOneDb));
    assert_eq!(NormalizeMode::from_lowercase_mode("-1dB"), None);
    assert_eq!(NormalizeMode::from_lowercase_mode("off"), None);
}

#[test]
fn fades_cover_at_most_half_or_a_quarter() {
    assert_eq!(fade_frame_count(100, 2, 10), 10);
    assert_eq!(fade_frame_count(100, 2, 40), 25);
    assert_eq!(quarter_fade_frame_count(100, 2, 40), 12);
    assert_eq!(quarter_fade_frame_count(100, 2, 5), 5);
    assert_eq!(quarter_fade_frame_count(0, 0, 5), 0);
    assert_eq!(quarter_fade_frame_count(100, 2, 0), 0);
}
