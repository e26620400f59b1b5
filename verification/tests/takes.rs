use autosample::takes::{
    min_tail_samples, recorded_extension, take_duration_ms, take_export, take_format,
    wav_is_float, wav_sample_kind, TakeExport, TakeFormat, WavSampleKind,
};

#[test]
fn take_formats_are_exact_words() {
    assert_eq!(take_format("wav"), Ok(TakeFormat::Wav));
    assert_eq!(take_format("mp3"), Ok(TakeFormat::Mp3));
    assert_eq!(take_format("both"), Ok(TakeFormat::Both));
    assert_eq!(take_format("WAV"), Err("Unsupported format: WAV".to_string()));
    assert_eq!(take_format("flac"), Err("Unsupported format: flac".to_string()));
}

#[test]
fn exports_per_format() {
    assert_eq!(
        take_export(TakeFormat::Wav),
        TakeExport { wav_extension: None, convert_mp3: false, remove_wav: false, conversion_failure_fatal: false }
    );
    assert_eq!(
        take_export(TakeFormat::Mp3),
        TakeExport { wav_extension: Some("tmp.wav"), convert_mp3: true, remove_wav: true, conversion_failure_fatal: true }
    );
    assert_eq!(
        take_export(TakeFormat::Both),
        TakeExport { wav_extension: Some("wav"), convert_mp3: true, remove_wav: false, conversion_failure_fatal: false }
    );
}

#[test]
fn takes_are_listed_under_their_main_file() {
    assert_eq!(recorded_extension("wav"), Some("wav"));
    assert_eq!(recorded_extension("mp3"), Some("mp3"));
    assert_eq!(recorded_extension("both"), Some("wav"));
    assert_eq!(recorded_extension("ogg"), None);
}

#[test]
fn wav_encodings_by_bit_depth() {
    assert_eq!(wav_sample_kind(16), Ok(WavSampleKind::Int16));
    assert_eq!(wav_sample_kind(24), Ok(WavSampleKind::Int24));
    assert_eq!(wav_sample_kind(32), Ok(WavSampleKind::Float32));
    assert_eq!(wav_sample_kind(8), Err("Unsupported bit depth: 8".to_string()));
    assert!(wav_is_float(32));
    assert!(!wav_is_float(24));
}

#[test]
fn take_lengths() {
    assert_eq!(take_duration_ms(100, 1000, 2000), 3100);
    // 48 kHz, 500 ms, stereo: 24000 frames of two samples.
    assert_eq!(min_tail_samples(48000, 500, 2), 48000);
    // 44.1 kHz, 1 ms: 44.1 frames rounded down.
    assert_eq!(min_tail_samples(44100, 1, 1), 44);
}
