//! Types shared by the engine and its front ends.

use vstd::prelude::*;
use crate::text::{ascii_lower, chars_of, is_ascii_text, range_equals, str_to_lowercase, to_lowercase};

verus! {

/// How sample files are laid out under `<output>/<prefix>/samples`.
#[derive(Debug, Clone, Copy, PartialEq, Eq, Structural)]
pub enum OutputOrganization {
    Flat,
    ByNote,
    ByNoteVelocity,
}

/// Why a configuration word was not recognised.
#[derive(Debug, Clone, PartialEq, Eq)]
pub enum ConfigError {
    /// The organization word that was given.
    InvalidOutputOrganization(String),
    /// The format word that was given.
    InvalidFormat(String),
}

/// A configuration error with its text taken as character sequences.
pub enum ConfigErrorView {
    InvalidOutputOrganization(Seq<char>),
    InvalidFormat(Seq<char>),
}

impl View for ConfigError {
    type V = ConfigErrorView;

    open spec fn view(&self) -> ConfigErrorView {
        match self {
            ConfigError::InvalidOutputOrganization(s) => ConfigErrorView::InvalidOutputOrganization(s@),
            ConfigError::InvalidFormat(s) => ConfigErrorView::InvalidFormat(s@),
        }
    }
}

/// The text of a configuration error, as the session reports it.
pub open spec fn config_error_text(e: ConfigErrorView) -> Seq<char> {
    match e {
        ConfigErrorView::InvalidOutputOrganization(s) => "Invalid output organization: "@ + s
            + ". Use flat, by-note, or by-note-velocity"@,
        ConfigErrorView::InvalidFormat(s) => "Invalid format: "@ + s + ". Use wav, mp3, or both"@,
    }
}

impl ConfigError {
    /// The text of this error.
    pub fn message(&self) -> (r: String)
        ensures
            r@ == config_error_text(self@),
    {
        let (head, word, tail) = match self {
            ConfigError::InvalidOutputOrganization(s) => (
                "Invalid output organization: ",
                s,
                ". Use flat, by-note, or by-note-velocity",
            ),
            ConfigError::InvalidFormat(s) => ("Invalid format: ", s, ". Use wav, mp3, or both"),
        };
        let a = crate::text::concat_str(head, word.as_str());
        crate::text::concat_str(a.as_str(), tail)
    }
}

impl Default for OutputOrganization {
    fn default() -> (r: Self)
        ensures
            r == OutputOrganization::Flat,
    {
        OutputOrganization::Flat
    }
}

/// The organization that a lower-cased word names.
pub open spec fn organization_named(l: Seq<char>) -> Option<OutputOrganization> {
    if l == seq!['f', 'l', 'a', 't'] {
        Some(OutputOrganization::Flat)
    } else if l == seq!['b', 'y', '_', 'n', 'o', 't', 'e'] || l == seq!['b', 'y', '-', 'n', 'o', 't', 'e'] || l == seq!['b', 'y', 'n', 'o', 't', 'e'] {
        Some(OutputOrganization::ByNote)
    } else if l == seq!['b', 'y', '_', 'n', 'o', 't', 'e', '_', 'v', 'e', 'l', 'o', 'c', 'i', 't', 'y'] || l == seq!['b', 'y', '-', 'n', 'o', 't', 'e', '-', 'v', 'e', 'l', 'o', 'c', 'i', 't', 'y'] || l == seq!['b', 'y', 'n', 'o', 't', 'e', 'v', 'e', 'l', 'o', 'c', 'i', 't', 'y'] {
        Some(OutputOrganization::ByNoteVelocity)
    } else {
        None
    }
}

/// An organization's name written with `sep` between its words: `flat`,
/// `by` `note`, `by` `note` `velocity`.
pub open spec fn organization_spelled(o: OutputOrganization, sep: Seq<char>) -> Seq<char> {
    match o {
        OutputOrganization::Flat => seq!['f', 'l', 'a', 't'],
        OutputOrganization::ByNote => seq!['b', 'y'] + sep + seq!['n', 'o', 't', 'e'],
        OutputOrganization::ByNoteVelocity => seq!['b', 'y'] + sep + seq!['n', 'o', 't', 'e'] + sep
            + seq!['v', 'e', 'l', 'o', 'c', 'i', 't', 'y'],
    }
}

/// A lower-cased word names an organization exactly when it is that
/// organization's name with its words joined by `_`, by `-`, or by nothing.
pub proof fn lemma_organization_spellings(l: Seq<char>, o: OutputOrganization)
    ensures
        organization_named(l) == Some(o) <==> (l == organization_spelled(o, seq!['_'])
            || l == organization_spelled(o, seq!['-']) || l == organization_spelled(o, seq![])),
{
    let e: Seq<char> = seq![];
    assert(organization_spelled(OutputOrganization::ByNote, seq!['_']) =~= seq!['b', 'y', '_', 'n', 'o', 't', 'e']);
    assert(organization_spelled(OutputOrganization::ByNote, seq!['-']) =~= seq!['b', 'y', '-', 'n', 'o', 't', 'e']);
    assert(organization_spelled(OutputOrganization::ByNote, e) =~= seq!['b', 'y', 'n', 'o', 't', 'e']);
    assert(organization_spelled(OutputOrganization::ByNoteVelocity, seq!['_']) =~= seq![
        'b', 'y', '_', 'n', 'o', 't', 'e', '_', 'v', 'e', 'l', 'o', 'c', 'i', 't', 'y',
    ]);
    assert(organization_spelled(OutputOrganization::ByNoteVelocity, seq!['-']) =~= seq![
        'b', 'y', '-', 'n', 'o', 't', 'e', '-', 'v', 'e', 'l', 'o', 'c', 'i', 't', 'y',
    ]);
    assert(organization_spelled(OutputOrganization::ByNoteVelocity, e) =~= seq![
        'b', 'y', 'n', 'o', 't', 'e', 'v', 'e', 'l', 'o', 'c', 'i', 't', 'y',
    ]);
}

/// What `OutputOrganization::from_str` returns for the word `s`.
pub open spec fn organization_from_str(s: Seq<char>) -> Result<OutputOrganization, ConfigErrorView> {
    match organization_named(str_to_lowercase(s)) {
        Some(o) => Ok(o),
        None => Err(ConfigErrorView::InvalidOutputOrganization(s)),
    }
}

impl OutputOrganization {
    /// The organization named by an already lower-cased word.
    pub fn from_lowercase(l: &Vec<char>) -> (r: Option<Self>)
        ensures
            r == organization_named(l@),
    {
        let n = l.len();
        assert(l@.subrange(0, n as int) =~= l@);
        if range_equals(l, 0, n, &vec!['f', 'l', 'a', 't']) {
            Some(OutputOrganization::Flat)
        } else if range_equals(l, 0, n, &vec!['b', 'y', '_', 'n', 'o', 't', 'e']) || range_equals(l, 0, n, &vec!['b', 'y', '-', 'n', 'o', 't', 'e'])
            || range_equals(l, 0, n, &vec!['b', 'y', 'n', 'o', 't', 'e']) {
            Some(OutputOrganization::ByNote)
        } else if range_equals(l, 0, n, &vec!['b', 'y', '_', 'n', 'o', 't', 'e', '_', 'v', 'e', 'l', 'o', 'c', 'i', 't', 'y']) || range_equals(
            l,
            0,
            n,
            &vec!['b', 'y', '-', 'n', 'o', 't', 'e', '-', 'v', 'e', 'l', 'o', 'c', 'i', 't', 'y'],
        ) || range_equals(l, 0, n, &vec!['b', 'y', 'n', 'o', 't', 'e', 'v', 'e', 'l', 'o', 'c', 'i', 't', 'y']) {
            Some(OutputOrganization::ByNoteVelocity)
        } else {
            None
        }
    }

    /// Reads an organization word, ignoring case.
    pub fn from_str(s: &str) -> (r: Result<Self, ConfigError>)
        ensures
            match r {
                Ok(o) => organization_from_str(s@) == Ok::<OutputOrganization, ConfigErrorView>(o),
                Err(e) => organization_from_str(s@) == Err::<OutputOrganization, ConfigErrorView>(e@),
            },
            is_ascii_text(s@) ==> match r {
                Ok(o) => organization_named(ascii_lower(s@)) == Some(o),
                Err(e) => organization_named(ascii_lower(s@)) is None && e@ == ConfigErrorView::InvalidOutputOrganization(s@),
            },
    {
        let chars = chars_of(s);
        let lower = to_lowercase(&chars);
        match Self::from_lowercase(&lower) {
            Some(o) => Ok(o),
            None => Err(ConfigError::InvalidOutputOrganization(s.to_owned())),
        }
    }
}


/// Which files a sample is exported as.
#[derive(Debug, Clone, Copy, PartialEq, Eq, Structural)]
pub enum OutputFormat {
    Wav,
    Mp3,
    Both,
}

/// The format that a lower-cased word names.
pub open spec fn format_named(l: Seq<char>) -> Option<OutputFormat> {
    if l == seq!['w', 'a', 'v'] {
        Some(OutputFormat::Wav)
    } else if l == seq!['m', 'p', '3'] {
        Some(OutputFormat::Mp3)
    } else if l == seq!['b', 'o', 't', 'h'] {
        Some(OutputFormat::Both)
    } else {
        None
    }
}

/// What `OutputFormat::from_str` returns for the word `s`.
pub open spec fn format_from_str(s: Seq<char>) -> Result<OutputFormat, ConfigErrorView> {
    match format_named(str_to_lowercase(s)) {
        Some(f) => Ok(f),
        None => Err(ConfigErrorView::InvalidFormat(s)),
    }
}

/// The word for a format, as `OutputFormat::as_str` gives it.
pub open spec fn format_word(f: OutputFormat) -> Seq<char> {
    match f {
        OutputFormat::Wav => seq!['w', 'a', 'v'],
        OutputFormat::Mp3 => seq!['m', 'p', '3'],
        OutputFormat::Both => seq!['b', 'o', 't', 'h'],
    }
}

impl OutputFormat {
    /// The format named by an already lower-cased word.
    pub fn from_lowercase(l: &Vec<char>) -> (r: Option<Self>)
        ensures
            r == format_named(l@),
    {
        let n = l.len();
        assert(l@.subrange(0, n as int) =~= l@);
        if range_equals(l, 0, n, &vec!['w', 'a', 'v']) {
            Some(OutputFormat::Wav)
        } else if range_equals(l, 0, n, &vec!['m', 'p', '3']) {
            Some(OutputFormat::Mp3)
        } else if range_equals(l, 0, n, &vec!['b', 'o', 't', 'h']) {
            Some(OutputFormat::Both)
        } else {
            None
        }
    }

    /// Reads a format word, ignoring case.
    pub fn from_str(s: &str) -> (r: Result<Self, ConfigError>)
        ensures
            match r {
                Ok(f) => format_from_str(s@) == Ok::<OutputFormat, ConfigErrorView>(f),
                Err(e) => format_from_str(s@) == Err::<OutputFormat, ConfigErrorView>(e@),
            },
            is_ascii_text(s@) ==> match r {
                Ok(f) => format_named(ascii_lower(s@)) == Some(f),
                Err(e) => format_named(ascii_lower(s@)) is None && e@ == ConfigErrorView::InvalidFormat(s@),
            },
    {
        let chars = chars_of(s);
        let lower = to_lowercase(&chars);
        match Self::from_lowercase(&lower) {
            Some(f) => Ok(f),
            None => Err(ConfigError::InvalidFormat(s.to_owned())),
        }
    }

    /// The lower-case word for the format.
    pub fn as_str(&self) -> (r: &'static str)
        ensures
            r@ == format_word(*self),
    {
        match self {
            OutputFormat::Wav => {
                proof {
                    reveal_strlit("wav");
                }
                "wav"
            },
            OutputFormat::Mp3 => {
                proof {
                    reveal_strlit("mp3");
                }
                "mp3"
            },
            OutputFormat::Both => {
                proof {
                    reveal_strlit("both");
                }
                "both"
            },
        }
    }
}

/// The word that `as_str` gives for a format is all ASCII and lower case, so
/// `from_str` reads it back as the same format.
pub proof fn lemma_format_word_reads_back(f: OutputFormat)
    ensures
        is_ascii_text(format_word(f)),
        ascii_lower(format_word(f)) == format_word(f),
        format_named(ascii_lower(format_word(f))) == Some(f),
{
    let w = format_word(f);
    assert(ascii_lower(w) =~= w);
}

/// One recording to make: a note at a velocity, for one round-robin take
/// (counted from 1).
#[derive(Debug, Clone, Copy, PartialEq, Eq, Structural)]
pub struct SampleJob {
    pub note: u8,
    pub velocity: u8,
    pub rr_index: u32,
}

#[derive(Debug, Clone, Copy, PartialEq, Eq, Structural)]
pub enum LogLevel {
    Info,
    Warning,
    Error,
}

#[derive(Debug, Clone, Copy, PartialEq, Eq, Structural)]
pub enum EngineStatus {
    Idle,
    Running,
    Paused,
    Completed,
    Error,
}

/// An audio input device as listed for selection.
#[derive(Debug, Clone)]
pub struct AudioDeviceInfo {
    pub index: usize,
    pub name: String,
    pub sample_rate: u32,
    pub channels: u16,
}

/// A MIDI output port as listed for selection.
#[derive(Debug, Clone)]
pub struct MidiPortInfo {
    pub index: usize,
    pub name: String,
}

impl View for MidiPortInfo {
    type V = (usize, Seq<char>);

    open spec fn view(&self) -> (usize, Seq<char>) {
        (self.index, self.name@)
    }
}

impl MidiPortInfo {
    /// A copy with the same index and name.
    pub fn duplicate(&self) -> (r: MidiPortInfo)
        ensures
            r.index == self.index,
            r.name@ == self.name@,
    {
        MidiPortInfo { index: self.index, name: self.name.clone() }
    }
}

impl AudioDeviceInfo {
    /// A copy with the same fields.
    pub fn duplicate(&self) -> (r: AudioDeviceInfo)
        ensures
            r.index == self.index,
            r.name@ == self.name@,
            r.sample_rate == self.sample_rate,
            r.channels == self.channels,
    {
        AudioDeviceInfo {
            index: self.index,
            name: self.name.clone(),
            sample_rate: self.sample_rate,
            channels: self.channels,
        }
    }
}


/// A session's settings. `F` is the type of the trim threshold in dB.
#[derive(Debug, Clone)]
pub struct RunConfig<F> {
    pub midi_out: String,
    pub audio_in: String,
    pub notes: String,
    pub vel: String,
    pub hold_ms: u32,
    pub tail_ms: u32,
    pub preroll_ms: u32,
    pub sr: u32,
    pub channels: u16,
    pub format: String,
    pub output: String,
    pub prefix: String,
    pub trim_threshold_db: Option<F>,
    pub normalize: Option<String>,
    pub round_robin: u32,
    pub resume: bool,
    pub output_organization: OutputOrganization,
}

/// Progress reported by a running session. `P` is the type of peak levels
/// in dB.
#[derive(Debug, Clone)]
pub enum ProgressUpdate<P> {
    Started { total_samples: usize },
    SampleStarted { index: usize, total: usize, note: u8, velocity: u8, rr: u32 },
    SampleCompleted { index: usize, total: usize, path: String, peak_db: P },
    SampleSkipped { index: usize, total: usize, path: String },
    SampleFailed { index: usize, total: usize, error: String },
    Completed { samples_recorded: usize },
    Cancelled,
    Log { level: LogLevel, message: String },
}

impl<F> RunConfig<F> {
    /// The settings a new project starts with; the trim threshold is the
    /// caller's (a level in dB). No devices, `C4..C5` at `127,100,64`, hold
    /// 1000 ms, tail 2000 ms, preroll 100 ms, 48 kHz stereo WAV in
    /// `./output` named `sample`, peak normalisation, one take, no
    /// resuming, flat folders.
    pub fn with_trim_threshold(trim_threshold_db: Option<F>) -> (r: RunConfig<F>)
        ensures
            r.midi_out@.len() == 0,
            r.audio_in@.len() == 0,
            r.notes@ == "C4..C5"@,
            r.vel@ == "127,100,64"@,
            r.hold_ms == 1000,
            r.tail_ms == 2000,
            r.preroll_ms == 100,
            r.sr == 48000,
            r.channels == 2,
            r.format@ == "wav"@,
            r.output@ == "./output"@,
            r.prefix@ == "sample"@,
            r.trim_threshold_db == trim_threshold_db,
            r.normalize matches Some(n) && n@ == "peak"@,
            r.round_robin == 1,
            !r.resume,
            r.output_organization == OutputOrganization::Flat,
    {
        RunConfig {
            midi_out: String::new(),
            audio_in: String::new(),
            notes: "C4..C5".to_owned(),
            vel: "127,100,64".to_owned(),
            hold_ms: 1000,
            tail_ms: 2000,
            preroll_ms: 100,
            sr: 48000,
            channels: 2,
            format: "wav".to_owned(),
            output: "./output".to_owned(),
            prefix: "sample".to_owned(),
            trim_threshold_db,
            normalize: Some("peak".to_owned()),
            round_robin: 1,
            resume: false,
            output_organization: OutputOrganization::Flat,
        }
    }
}

} // verus!
