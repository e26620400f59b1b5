use autosample::types::{ConfigError, OutputFormat, OutputOrganization, RunConfig};

#[test]
fn organizations_are_read_in_any_case_and_spelling() {
    assert_eq!(OutputOrganization::from_str("flat"), Ok(OutputOrganization::Flat));
    assert_eq!(OutputOrganization::from_str("By-Note"), Ok(OutputOrganization::ByNote));
    assert_eq!(OutputOrganization::from_str("by_note"), Ok(OutputOrganization::ByNote));
    assert_eq!(OutputOrganization::from_str("BYNOTE"), Ok(OutputOrganization::ByNote));
    assert_eq!(
        OutputOrganization::from_str("by-note-velocity"),
        Ok(OutputOrganization::ByNoteVelocity)
    );
    assert_eq!(
        OutputOrganization::from_str("bynotevelocity"),
        Ok(OutputOrganization::ByNoteVelocity)
    );
    assert!(OutputOrganization::from_str("nested").is_err());
    assert_eq!(OutputOrganization::default(), OutputOrganization::Flat);
}

#[test]
fn formats_are_read_in_any_case() {
    assert_eq!(OutputFormat::from_str("WAV"), Ok(OutputFormat::Wav));
    assert_eq!(OutputFormat::from_str("mp3"), Ok(OutputFormat::Mp3));
    assert_eq!(OutputFormat::from_str("Both"), Ok(OutputFormat::Both));
    assert!(matches!(OutputFormat::from_str("flac"), Err(ConfigError::InvalidFormat(_))));
    assert_eq!(OutputFormat::Mp3.as_str(), "mp3");
    assert_eq!(OutputFormat::Both.as_str(), "both");
    assert_eq!(OutputFormat::Wav.as_str(), "wav");
}

#[test]
fn default_settings() {
    let c: RunConfig<f32> = RunConfig::with_trim_threshold(Some(-50.0));
    assert_eq!(c.notes, "C4..C5");
    assert_eq!(c.vel, "127,100,64");
    assert_eq!((c.hold_ms, c.tail_ms, c.preroll_ms), (1000, 2000, 100));
    assert_eq!((c.sr, c.channels), (48000, 2));
    assert_eq!(c.format, "wav");
    assert_eq!(c.output, "./output");
    assert_eq!(c.prefix, "sample");
    assert_eq!(c.normalize.as_deref(), Some("peak"));
    assert_eq!(c.round_robin, 1);
    assert!(!c.resume);
    assert_eq!(c.output_organization, OutputOrganization::Flat);
    assert_eq!(c.trim_threshold_db, Some(-50.0));
}

#[test]
fn configuration_error_texts() {
    assert_eq!(
        OutputOrganization::from_str("nested").unwrap_err().message(),
        "Invalid output organization: nested. Use flat, by-note, or by-note-velocity"
    );
    assert_eq!(
        OutputFormat::from_str("flac").unwrap_err().message(),
        "Invalid format: flac. Use wav, mp3, or both"
    );
}

#[test]
fn format_words_read_back() {
    for f in [OutputFormat::Wav, OutputFormat::Mp3, OutputFormat::Both] {
        assert_eq!(OutputFormat::from_str(f.as_str()), Ok(f));
        assert_eq!(OutputFormat::from_str(&f.as_str().to_uppercase()), Ok(f));
    }
}
