//! The state behind the graphical front end: device lists and selections,
//! the device scan, audio permission, session progress and the log. Time
//! stamps, device enumeration and the scan's worker thread are supplied by
//! the caller; this module decides how the state changes.

use vstd::prelude::*;
use crate::engine::texts;
use crate::text::{chars_of, concat_str, push_all, push_decimal, dec_digits, range_equals, string_from_chars, trim, trimmed};
use crate::types::{
    AudioDeviceInfo, EngineStatus, LogLevel, MidiPortInfo, ProgressUpdate, RunConfig,
};

verus! {

/// Counters of a running session.
#[derive(Debug, Clone, Copy, PartialEq, Eq, Structural)]
pub struct ProgressState {
    pub current_index: usize,
    pub total_samples: usize,
    pub current_note: u8,
    pub current_velocity: u8,
    pub current_rr: u32,
    pub samples_completed: usize,
    pub samples_failed: usize,
    pub samples_skipped: usize,
}

pub open spec fn zero_progress() -> ProgressState {
    ProgressState {
        current_index: 0,
        total_samples: 0,
        current_note: 0,
        current_velocity: 0,
        current_rr: 0,
        samples_completed: 0,
        samples_failed: 0,
        samples_skipped: 0,
    }
}

impl Default for ProgressState {
    fn default() -> (r: ProgressState)
        ensures
            r == zero_progress(),
    {
        ProgressState {
            current_index: 0,
            total_samples: 0,
            current_note: 0,
            current_velocity: 0,
            current_rr: 0,
            samples_completed: 0,
            samples_failed: 0,
            samples_skipped: 0,
        }
    }
}

/// One line of the session log.
#[derive(Debug, Clone)]
pub struct LogEntry {
    pub timestamp: String,
    pub level: LogLevel,
    pub message: String,
}

impl View for LogEntry {
    type V = (Seq<char>, LogLevel, Seq<char>);

    open spec fn view(&self) -> (Seq<char>, LogLevel, Seq<char>) {
        (self.timestamp@, self.level, self.message@)
    }
}

pub open spec fn log_views(v: Seq<LogEntry>) -> Seq<(Seq<char>, LogLevel, Seq<char>)> {
    v.map_values(|e: LogEntry| e@)
}

#[derive(Debug, Clone, PartialEq, Eq)]
pub enum DeviceScanState {
    Idle,
    Scanning,
    Failed(String),
}

#[derive(Debug, Clone, PartialEq, Eq)]
pub enum AudioInputPermissionState {
    Unknown,
    Checking,
    Granted,
    Denied(String),
}

/// The answer of a system microphone-permission request.
#[derive(Debug, Clone, PartialEq, Eq)]
pub enum PermissionResult {
    Granted,
    Denied,
    Error(String),
}

/// What a background audio device scan found.
pub struct DeviceScanResult {
    pub audio_devices: Vec<AudioDeviceInfo>,
}

/// What polling the background scan gave.
pub enum ScanPoll {
    /// The scan has not finished.
    Pending,
    /// The scan finished with devices or an error message.
    Finished(Result<DeviceScanResult, String>),
    /// The scan's worker went away without answering.
    Disconnected,
}

/// Names of devices, as values.
pub open spec fn port_names(v: Seq<MidiPortInfo>) -> Seq<Seq<char>> {
    v.map_values(|d: MidiPortInfo| d.name@)
}

pub open spec fn audio_names(v: Seq<AudioDeviceInfo>) -> Seq<Seq<char>> {
    v.map_values(|d: AudioDeviceInfo| d.name@)
}

/// The first position holding `preferred`, from `i` on.
pub open spec fn position_from(names: Seq<Seq<char>>, preferred: Seq<char>, i: int) -> Option<int>
    decreases names.len() - i,
{
    if i < 0 || i >= names.len() {
        None
    } else if names[i] == preferred {
        Some(i)
    } else {
        position_from(names, preferred, i + 1)
    }
}

/// Which device to select: none when there are none, the first when no
/// name is preferred, the first with the preferred name, else the first.
pub open spec fn selection_index(preferred: Seq<char>, names: Seq<Seq<char>>) -> Option<int> {
    if names.len() == 0 {
        None
    } else if preferred.len() == 0 {
        Some(0)
    } else {
        match position_from(names, preferred, 0) {
            Some(i) => Some(i),
            None => Some(0),
        }
    }
}

/// Whether two strings are equal.
pub fn same_text(a: &str, b: &str) -> (r: bool)
    ensures
        r == (a@ == b@),
{
    let x = chars_of(a);
    let y = chars_of(b);
    assert(x@.subrange(0, x.len() as int) =~= x@);
    range_equals(&x, 0, x.len(), &y)
}

/// The position of `preferred` among `names`, or `None`.
pub fn position_of(preferred: &str, names: &Vec<String>) -> (r: Option<usize>)
    ensures
        r is None <==> position_from(texts(names@), preferred@, 0) is None,
        r matches Some(i) ==> i < names.len() && position_from(texts(names@), preferred@, 0) == Some(
            i as int,
        ),
{
    let ghost ns = texts(names@);
    let mut i: usize = 0;
    while i < names.len()
        invariant
            i <= names.len(),
            ns == texts(names@),
            position_from(ns, preferred@, 0) == position_from(ns, preferred@, i as int),
        decreases names.len() - i,
    {
        if same_text(names[i].as_str(), preferred) {
            return Some(i);
        }
        i = i + 1;
    }
    None
}

/// Which device to select among `names` (see `selection_index`).
pub fn resolve_selection_index(preferred: &str, names: &Vec<String>) -> (r: Option<usize>)
    ensures
        r is None <==> selection_index(preferred@, texts(names@)) is None,
        r matches Some(i) ==> i < names.len() && selection_index(preferred@, texts(names@)) == Some(
            i as int,
        ),
{
    if names.len() == 0 {
        return None;
    }
    if preferred.is_empty() {
        return Some(0);
    }
    match position_of(preferred, names) {
        Some(i) => Some(i),
        None => Some(0),
    }
}


/// Everything the front end shows and edits. `F` is the type of levels in
/// dB (the trim threshold and the input meter).
pub struct AppState<F> {
    pub midi_devices: Vec<MidiPortInfo>,
    pub audio_devices: Vec<AudioDeviceInfo>,
    pub selected_midi_idx: Option<usize>,
    pub selected_audio_idx: Option<usize>,
    pub config: RunConfig<F>,
    pub engine_status: EngineStatus,
    pub progress: ProgressState,
    pub logs: Vec<LogEntry>,
    pub input_meter_db: Option<F>,
    pub audio_permission_state: AudioInputPermissionState,
    pub preset_name: String,
    pub device_scan_state: DeviceScanState,
    /// A MIDI scan error kept until the audio scan finishes.
    pub pending_midi_scan_error: Option<String>,
    /// Whether a new audio permission check was asked for.
    pub audio_permission_recheck_requested: bool,
    /// When the last device scan finished, in milliseconds on the caller's
    /// monotonic clock; `None` before any scan has finished.
    pub last_scan_completed_at: Option<u64>,
}

impl<F> AppState<F> {
    /// The MIDI scan error kept until the audio scan finishes.
    pub open spec fn pending_midi_error(&self) -> Option<Seq<char>> {
        match self.pending_midi_scan_error {
            Some(s) => Some(s@),
            None => None,
        }
    }

    /// Whether a new audio permission check was asked for.
    pub open spec fn recheck_requested(&self) -> bool {
        self.audio_permission_recheck_requested
    }

    /// Devices, selections and settings are the same in `a` and `b`.
    pub open spec fn same_devices(a: &Self, b: &Self) -> bool {
        &&& b.midi_devices == a.midi_devices
        &&& b.audio_devices == a.audio_devices
        &&& b.selected_midi_idx == a.selected_midi_idx
        &&& b.selected_audio_idx == a.selected_audio_idx
        &&& b.config == a.config
    }

    /// The session status, progress, meter, permission and preset name are
    /// the same in `a` and `b`.
    pub open spec fn same_session(a: &Self, b: &Self) -> bool {
        &&& b.engine_status == a.engine_status
        &&& b.progress == a.progress
        &&& b.input_meter_db == a.input_meter_db
        &&& b.audio_permission_state == a.audio_permission_state
        &&& b.preset_name == a.preset_name
    }

    /// The scan state, the kept MIDI error, the recheck request and the time
    /// the last scan finished are the same in `a` and `b`.
    pub open spec fn same_flags(a: &Self, b: &Self) -> bool {
        &&& b.device_scan_state == a.device_scan_state
        &&& b.pending_midi_error() == a.pending_midi_error()
        &&& b.recheck_requested() == a.recheck_requested()
        &&& b.last_scan_completed_at == a.last_scan_completed_at
    }

    /// `b` is `a` with `entries` appended to the log.
    pub open spec fn logged(a: &Self, b: &Self, entries: Seq<(Seq<char>, LogLevel, Seq<char>)>) -> bool {
        &&& log_views(b.logs@) == log_views(a.logs@) + entries
        &&& b.logs@.len() == a.logs@.len() + entries.len()
    }

    /// `b` is `a` with one entry appended to the log and nothing else changed.
    pub open spec fn only_logged(a: &Self, b: &Self, entry: (Seq<char>, LogLevel, Seq<char>)) -> bool {
        &&& Self::same_devices(a, b)
        &&& Self::same_session(a, b)
        &&& Self::same_flags(a, b)
        &&& Self::logged(a, b, seq![entry])
    }

    /// The state of a fresh front end with the given settings: no devices,
    /// idle, empty log, permission not checked, the preset named after the
    /// prefix.
    pub fn new(config: RunConfig<F>) -> (r: AppState<F>)
        ensures
            r.midi_devices@.len() == 0,
            r.audio_devices@.len() == 0,
            r.selected_midi_idx is None,
            r.selected_audio_idx is None,
            r.config == config,
            r.engine_status == EngineStatus::Idle,
            r.progress == zero_progress(),
            r.logs@.len() == 0,
            r.input_meter_db is None,
            r.audio_permission_state == AudioInputPermissionState::Unknown,
            r.preset_name@ == config.prefix@,
            r.device_scan_state == DeviceScanState::Idle,
            r.pending_midi_error() is None,
            !r.recheck_requested(),
            r.last_scan_completed_at is None,
    {
        let preset_name = config.prefix.clone();
        AppState {
            midi_devices: Vec::new(),
            audio_devices: Vec::new(),
            selected_midi_idx: None,
            selected_audio_idx: None,
            config,
            engine_status: EngineStatus::Idle,
            progress: ProgressState::default(),
            logs: Vec::new(),
            input_meter_db: None,
            audio_permission_state: AudioInputPermissionState::Unknown,
            preset_name,
            device_scan_state: DeviceScanState::Idle,
            pending_midi_scan_error: None,
            audio_permission_recheck_requested: false,
            last_scan_completed_at: None,
        }
    }

    /// Appends a log line stamped `timestamp`.
    pub fn add_log(&mut self, level: LogLevel, message: String, timestamp: String)
        ensures
            Self::only_logged(old(self), final(self), (timestamp@, level, message@)),
    {
        let ghost before = self.logs@;
        let ghost entry = (timestamp@, level, message@);
        self.logs.push(LogEntry { timestamp, level, message });
        assert(log_views(self.logs@) =~= log_views(before) + seq![entry]);
    }

    // -----------------------------------------------------------------------
    // Device scanning
    // -----------------------------------------------------------------------

    pub fn is_device_scan_running(&self) -> (r: bool)
        ensures
            r == (self.device_scan_state == DeviceScanState::Scanning),
    {
        match self.device_scan_state {
            DeviceScanState::Scanning => true,
            _ => false,
        }
    }

    /// The message of a failed scan.
    pub fn device_scan_error(&self) -> (r: Option<&str>)
        ensures
            match self.device_scan_state {
                DeviceScanState::Failed(m) => r matches Some(s) && s@ == m@,
                _ => r is None,
            },
    {
        match &self.device_scan_state {
            DeviceScanState::Failed(msg) => Some(msg.as_str()),
            _ => None,
        }
    }

    /// What `apply_midi_scan_result` leaves: the given outputs, the
    /// selection of `preferred` or the first, and its name configured.
    pub open spec fn midi_applied(
        a: &Self,
        b: &Self,
        devices: Seq<MidiPortInfo>,
        preferred: Seq<char>,
    ) -> bool {
        &&& b.midi_devices@ == devices
        &&& b.audio_devices == a.audio_devices
        &&& b.selected_audio_idx == a.selected_audio_idx
        &&& match b.selected_midi_idx {
            Some(x) => selection_index(preferred, port_names(devices)) == Some(x as int)
                && b.config.midi_out@ == devices[x as int].name@,
            None => selection_index(preferred, port_names(devices)) is None
                && b.config.midi_out@.len() == 0,
        }
        &&& b.config == (RunConfig { midi_out: b.config.midi_out, ..a.config })
    }

    /// What a refresh that went ahead leaves, given what the MIDI scan gave.
    pub open spec fn refresh_started(
        a: &Self,
        b: &Self,
        midi: Result<Vec<MidiPortInfo>, String>,
        timestamp: Seq<char>,
    ) -> bool {
        let refreshing = (
            timestamp,
            LogLevel::Info,
            "Refreshing device list (MIDI cached, audio in background)…"@,
        );
        &&& b.device_scan_state == DeviceScanState::Scanning
        &&& Self::same_session(a, b)
        &&& b.recheck_requested() == a.recheck_requested()
        &&& b.last_scan_completed_at == a.last_scan_completed_at
        &&& match midi {
            Ok(devices) => {
                &&& Self::midi_applied(a, b, devices@, trim(a.config.midi_out@))
                &&& b.pending_midi_error() is None
                &&& Self::logged(a, b, seq![refreshing])
            },
            Err(e) => {
                let msg = "MIDI scan failed: "@ + e@;
                &&& Self::same_devices(a, b)
                &&& b.pending_midi_error() == Some(msg)
                &&& Self::logged(a, b, seq![(timestamp, LogLevel::Warning, msg), refreshing])
            },
        }
    }

    /// A device refresh. While sampling runs, or while a scan runs, it is
    /// refused with a log line and `false` comes back. Otherwise the MIDI
    /// outputs are listed with `scan_midi` (whose error is kept for the end
    /// of the audio scan), the scan state becomes `Scanning`, and `true`
    /// comes back: the caller then starts the audio scan in the background
    /// and hands its outcome to `poll_device_scan_result`.
    pub fn request_device_scan<M: FnOnce() -> Result<Vec<MidiPortInfo>, String>>(
        &mut self,
        scan_midi: M,
        timestamp: String,
    ) -> (started: bool)
        requires
            scan_midi.requires(()),
        ensures
            old(self).engine_status == EngineStatus::Running ==> !started && Self::only_logged(
                old(self),
                final(self),
                (
                    timestamp@,
                    LogLevel::Warning,
                    "Device refresh ignored: sampling is currently running."@,
                ),
            ),
            old(self).engine_status != EngineStatus::Running && old(self).device_scan_state
                == DeviceScanState::Scanning ==> !started && Self::only_logged(
                old(self),
                final(self),
                (timestamp@, LogLevel::Info, "Device refresh already in progress."@),
            ),
            old(self).engine_status != EngineStatus::Running && old(self).device_scan_state
                != DeviceScanState::Scanning ==> started && exists|m: Result<Vec<MidiPortInfo>, String>|
                #[trigger] call_ensures(scan_midi, (), m) && Self::refresh_started(
                    old(self),
                    final(self),
                    m,
                    timestamp@,
                ),
    {
        if self.engine_status == EngineStatus::Running {
            self.add_log(
                LogLevel::Warning,
                "Device refresh ignored: sampling is currently running.".to_owned(),
                timestamp,
            );
            return false;
        }
        if self.is_device_scan_running() {
            self.add_log(LogLevel::Info, "Device refresh already in progress.".to_owned(), timestamp);
            return false;
        }
        let ghost before = *self;
        let preferred = trimmed(self.config.midi_out.as_str());
        self.pending_midi_scan_error = None;
        let midi = scan_midi();
        let ghost seen = midi;
        match midi {
            Ok(devices) => {
                self.apply_midi_scan_result(devices, preferred.as_str());
            },
            Err(e) => {
                let msg = concat_str("MIDI scan failed: ", e.as_str());
                self.pending_midi_scan_error = Some(msg.clone());
                self.add_log(LogLevel::Warning, msg, timestamp.clone());
            },
        }
        self.device_scan_state = DeviceScanState::Scanning;
        let ghost mid = *self;
        let ghost refreshing = (
            timestamp@,
            LogLevel::Info,
            "Refreshing device list (MIDI cached, audio in background)…"@,
        );
        self.add_log(
            LogLevel::Info,
            "Refreshing device list (MIDI cached, audio in background)…".to_owned(),
            timestamp,
        );
        assert(log_views(self.logs@) == log_views(mid.logs@) + seq![refreshing]);
        assert(self.device_scan_state == DeviceScanState::Scanning);
        assert(Self::same_session(&before, self));
        assert(self.recheck_requested() == before.recheck_requested());
        proof {
            match seen {
                Ok(devices) => {
                    assert(Self::midi_applied(&before, self, devices@, trim(before.config.midi_out@)));
                    assert(self.pending_midi_error() is None);
                    assert(log_views(mid.logs@) == log_views(before.logs@));
                },
                Err(e) => {
                    let w = (timestamp@, LogLevel::Warning, "MIDI scan failed: "@ + e@);
                    assert(Self::same_devices(&before, self));
                    assert(self.pending_midi_error() == Some("MIDI scan failed: "@ + e@));
                    assert(log_views(mid.logs@) == log_views(before.logs@) + seq![w]);
                    assert(log_views(self.logs@) =~= log_views(before.logs@) + seq![w, refreshing]);
                },
            }
        }
        assert(Self::refresh_started(&before, self, seen, timestamp@));
        true
    }

    /// New MIDI outputs: they replace the list, and the selection goes to
    /// `preferred` (or the first output), whose name becomes the configured
    /// output; with no outputs the configured output is cleared.
    pub fn apply_midi_scan_result(&mut self, midi_devices: Vec<MidiPortInfo>, preferred: &str)
        ensures
            Self::midi_applied(old(self), final(self), midi_devices@, preferred@),
            Self::same_session(old(self), final(self)),
            Self::same_flags(old(self), final(self)),
            final(self).logs == old(self).logs,
    {
        let names = midi_name_list(&midi_devices);
        let selected = resolve_selection_index(preferred, &names);
        self.midi_devices = midi_devices;
        self.selected_midi_idx = selected;
        match selected {
            Some(idx) => {
                self.config.midi_out = self.midi_devices[idx].name.clone();
            },
            None => {
                self.config.midi_out = String::new();
            },
        }
    }

    /// New audio inputs from a finished scan: they replace the list, and the
    /// selection goes to the configured input (trimmed), or the first.
    pub fn apply_audio_scan_result(&mut self, result: DeviceScanResult)
        ensures
            Self::audio_applied(old(self), final(self), result.audio_devices@),
            Self::same_flags(old(self), final(self)),
            final(self).logs == old(self).logs,
    {
        let preferred = trimmed(self.config.audio_in.as_str());
        let devices = result.audio_devices;
        let names = audio_name_list(&devices);
        let selected = resolve_selection_index(preferred.as_str(), &names);
        self.audio_devices = devices;
        self.selected_audio_idx = selected;
        match selected {
            Some(idx) => {
                self.config.audio_in = self.audio_devices[idx].name.clone();
            },
            None => {
                self.config.audio_in = String::new();
            },
        }
    }
}


/// The text of a joined pair `a; b`.
pub open spec fn joined_errors(a: Seq<char>, b: Seq<char>) -> Seq<char> {
    a + "; "@ + b
}

fn join_errors(a: &str, b: &str) -> (r: String)
    ensures
        r@ == joined_errors(a@, b@),
{
    let first = concat_str(a, "; ");
    concat_str(first.as_str(), b)
}

/// `Device refresh complete: <midi> MIDI, <audio> audio.`
pub open spec fn refresh_complete_text(midi: nat, audio: nat) -> Seq<char> {
    "Device refresh complete: "@ + dec_digits(midi) + " MIDI, "@ + dec_digits(audio) + " audio."@
}

fn refresh_complete_message(midi: usize, audio: usize) -> (r: String)
    ensures
        r@ == refresh_complete_text(midi as nat, audio as nat),
{
    let mut out = chars_of("Device refresh complete: ");
    push_decimal(&mut out, midi as u64, 0);
    let t = chars_of(" MIDI, ");
    push_all(&mut out, &t);
    push_decimal(&mut out, audio as u64, 0);
    let u = chars_of(" audio.");
    push_all(&mut out, &u);
    string_from_chars(&out)
}

impl<F> AppState<F> {
    /// What `apply_audio_scan_result` leaves: the given inputs, the
    /// selection of the formerly configured input (trimmed) or the first,
    /// and its name configured.
    pub open spec fn audio_applied(a: &Self, b: &Self, devices: Seq<AudioDeviceInfo>) -> bool {
        &&& b.audio_devices@ == devices
        &&& b.midi_devices == a.midi_devices
        &&& b.selected_midi_idx == a.selected_midi_idx
        &&& match b.selected_audio_idx {
            Some(x) => selection_index(trim(a.config.audio_in@), audio_names(devices)) == Some(
                x as int,
            ) && b.config.audio_in@ == devices[x as int].name@,
            None => selection_index(trim(a.config.audio_in@), audio_names(devices)) is None
                && b.config.audio_in@.len() == 0,
        }
        &&& b.config == (RunConfig { audio_in: b.config.audio_in, ..a.config })
        &&& Self::same_session(a, b)
    }

    /// Takes what polling the background scan gave. A finished scan's
    /// devices are applied; the scan then ends idle, or failed with the kept
    /// MIDI error or with the scan's error (joined to the kept MIDI error by
    /// `; `), and the outcome is logged. A scan that ended, however it
    /// ended, is recorded as completed at `now_ms`.
    pub fn poll_device_scan_result(&mut self, poll: ScanPoll, timestamp: String, now_ms: u64)
        ensures
            match poll {
                ScanPoll::Pending => final(self).last_scan_completed_at == old(
                    self,
                ).last_scan_completed_at,
                _ => final(self).last_scan_completed_at == Some(now_ms),
            },
            match poll {
                ScanPoll::Pending => *final(self) == *old(self),
                ScanPoll::Finished(Ok(result)) => {
                    &&& Self::audio_applied(old(self), final(self), result.audio_devices@)
                    &&& final(self).pending_midi_error() is None
                    &&& final(self).recheck_requested() == old(self).recheck_requested()
                    &&& match old(self).pending_midi_error() {
                        Some(m) => {
                            &&& final(self).device_scan_state matches DeviceScanState::Failed(f)
                                && f@ == m
                            &&& Self::logged(
                                old(self),
                                final(self),
                                seq![
                                    (
                                        timestamp@,
                                        LogLevel::Warning,
                                        "Device refresh completed with warnings: "@ + m,
                                    ),
                                ],
                            )
                        },
                        None => {
                            &&& final(self).device_scan_state == DeviceScanState::Idle
                            &&& Self::logged(
                                old(self),
                                final(self),
                                seq![
                                    (
                                        timestamp@,
                                        LogLevel::Info,
                                        refresh_complete_text(
                                            old(self).midi_devices@.len(),
                                            result.audio_devices@.len(),
                                        ),
                                    ),
                                ],
                            )
                        },
                    }
                },
                ScanPoll::Finished(Err(e)) => {
                    let combined = match old(self).pending_midi_error() {
                        Some(m) => joined_errors(m, e@),
                        None => e@,
                    };
                    &&& Self::same_devices(old(self), final(self))
                    &&& Self::same_session(old(self), final(self))
                    &&& final(self).pending_midi_error() is None
                    &&& final(self).recheck_requested() == old(self).recheck_requested()
                    &&& final(self).device_scan_state matches DeviceScanState::Failed(f) && f@
                        == combined
                    &&& Self::logged(
                        old(self),
                        final(self),
                        seq![(timestamp@, LogLevel::Warning, "Device refresh failed: "@ + combined)],
                    )
                },
                ScanPoll::Disconnected => {
                    let lost = "Device refresh worker disconnected unexpectedly"@;
                    let combined = match old(self).pending_midi_error() {
                        Some(m) => joined_errors(m, lost),
                        None => lost,
                    };
                    &&& Self::same_devices(old(self), final(self))
                    &&& Self::same_session(old(self), final(self))
                    &&& final(self).pending_midi_error() is None
                    &&& final(self).recheck_requested() == old(self).recheck_requested()
                    &&& final(self).device_scan_state matches DeviceScanState::Failed(f) && f@
                        == combined
                    &&& Self::logged(
                        old(self),
                        final(self),
                        seq![(timestamp@, LogLevel::Warning, "Device refresh failed: "@ + combined)],
                    )
                },
            },
    {
        match &poll {
            ScanPoll::Pending => {},
            _ => {
                self.last_scan_completed_at = Some(now_ms);
            },
        }
        match poll {
            ScanPoll::Pending => {},
            ScanPoll::Finished(Ok(result)) => {
                self.apply_audio_scan_result(result);
                let pending = self.pending_midi_scan_error.clone();
                self.pending_midi_scan_error = None;
                match pending {
                    Some(midi_err) => {
                        self.device_scan_state = DeviceScanState::Failed(midi_err.clone());
                        let msg = concat_str(
                            "Device refresh completed with warnings: ",
                            midi_err.as_str(),
                        );
                        self.add_log(LogLevel::Warning, msg, timestamp);
                    },
                    None => {
                        self.device_scan_state = DeviceScanState::Idle;
                        let msg = refresh_complete_message(
                            self.midi_devices.len(),
                            self.audio_devices.len(),
                        );
                        self.add_log(LogLevel::Info, msg, timestamp);
                    },
                }
            },
            ScanPoll::Finished(Err(audio_err)) => {
                let combined = match &self.pending_midi_scan_error {
                    Some(midi_err) => join_errors(midi_err.as_str(), audio_err.as_str()),
                    None => audio_err,
                };
                self.pending_midi_scan_error = None;
                self.device_scan_state = DeviceScanState::Failed(combined.clone());
                let msg = concat_str("Device refresh failed: ", combined.as_str());
                self.add_log(LogLevel::Warning, msg, timestamp);
            },
            ScanPoll::Disconnected => {
                let lost = "Device refresh worker disconnected unexpectedly";
                let error = match &self.pending_midi_scan_error {
                    Some(midi_err) => join_errors(midi_err.as_str(), lost),
                    None => lost.to_owned(),
                };
                self.pending_midi_scan_error = None;
                self.device_scan_state = DeviceScanState::Failed(error.clone());
                let msg = concat_str("Device refresh failed: ", error.as_str());
                self.add_log(LogLevel::Warning, msg, timestamp);
            },
        }
    }
}

impl<F> AppState<F> {
    /// Asks for a new audio permission check.
    pub fn request_audio_permission_recheck(&mut self)
        ensures
            final(self).recheck_requested(),
            Self::same_devices(old(self), final(self)),
            Self::same_session(old(self), final(self)),
            final(self).device_scan_state == old(self).device_scan_state,
            final(self).pending_midi_error() == old(self).pending_midi_error(),
            final(self).logs == old(self).logs,
            final(self).last_scan_completed_at == old(self).last_scan_completed_at,
    {
        self.audio_permission_recheck_requested = true;
    }

    /// Whether a recheck was asked for; the request is consumed.
    pub fn consume_audio_permission_recheck_requested(&mut self) -> (was: bool)
        ensures
            was == old(self).recheck_requested(),
            !final(self).recheck_requested(),
            Self::same_devices(old(self), final(self)),
            Self::same_session(old(self), final(self)),
            final(self).device_scan_state == old(self).device_scan_state,
            final(self).pending_midi_error() == old(self).pending_midi_error(),
            final(self).logs == old(self).logs,
            final(self).last_scan_completed_at == old(self).last_scan_completed_at,
    {
        let was = self.audio_permission_recheck_requested;
        self.audio_permission_recheck_requested = false;
        was
    }

    /// Only the audio permission state may differ between `a` and `b`.
    pub open spec fn only_permission_changed(a: &Self, b: &Self) -> bool {
        &&& Self::same_devices(a, b)
        &&& b.engine_status == a.engine_status
        &&& b.progress == a.progress
        &&& b.input_meter_db == a.input_meter_db
        &&& b.preset_name == a.preset_name
        &&& Self::same_flags(a, b)
        &&& b.logs == a.logs
    }

    pub fn set_audio_permission_checking(&mut self)
        ensures
            final(self).audio_permission_state == AudioInputPermissionState::Checking,
            Self::only_permission_changed(old(self), final(self)),
    {
        self.audio_permission_state = AudioInputPermissionState::Checking;
    }

    pub fn set_audio_permission_granted(&mut self)
        ensures
            final(self).audio_permission_state == AudioInputPermissionState::Granted,
            Self::only_permission_changed(old(self), final(self)),
    {
        self.audio_permission_state = AudioInputPermissionState::Granted;
    }

    pub fn set_audio_permission_denied(&mut self, reason: String)
        ensures
            final(self).audio_permission_state == AudioInputPermissionState::Denied(reason),
            Self::only_permission_changed(old(self), final(self)),
    {
        self.audio_permission_state = AudioInputPermissionState::Denied(reason);
    }

    pub fn reset_audio_permission_state(&mut self)
        ensures
            final(self).audio_permission_state == AudioInputPermissionState::Unknown,
            Self::only_permission_changed(old(self), final(self)),
    {
        self.audio_permission_state = AudioInputPermissionState::Unknown;
    }

    pub fn audio_permission_is_granted(&self) -> (r: bool)
        ensures
            r == (self.audio_permission_state == AudioInputPermissionState::Granted),
    {
        match self.audio_permission_state {
            AudioInputPermissionState::Granted => true,
            _ => false,
        }
    }

    /// Whether `event` can be taken without a counter passing `usize::MAX`.
    pub open spec fn event_fits<P>(&self, event: ProgressUpdate<P>) -> bool {
        match event {
            ProgressUpdate::SampleCompleted { .. } => self.progress.samples_completed < usize::MAX,
            ProgressUpdate::SampleSkipped { .. } => self.progress.samples_skipped < usize::MAX,
            ProgressUpdate::SampleFailed { .. } => self.progress.samples_failed < usize::MAX,
            _ => true,
        }
    }

    /// Takes a progress report of the running session: `Started` resets
    /// the counters and marks the session running, `SampleStarted` records
    /// the current sample, the outcomes of a sample each count one,
    /// `Completed` and `Cancelled` set the status, and `Log` is logged.
    pub fn handle_engine_event<P>(&mut self, event: ProgressUpdate<P>, timestamp: String)
        requires
            old(self).event_fits(event),
        ensures
            Self::same_devices(old(self), final(self)),
            Self::same_flags(old(self), final(self)),
            final(self).input_meter_db == old(self).input_meter_db,
            final(self).audio_permission_state == old(self).audio_permission_state,
            final(self).preset_name == old(self).preset_name,
            match event {
                ProgressUpdate::Log { level, message } => Self::logged(
                    old(self),
                    final(self),
                    seq![(timestamp@, level, message@)],
                ),
                _ => final(self).logs == old(self).logs,
            },
            match event {
                ProgressUpdate::Started { total_samples } => {
                    &&& final(self).progress == ProgressState {
                        total_samples,
                        current_index: 0,
                        samples_completed: 0,
                        samples_failed: 0,
                        samples_skipped: 0,
                        ..old(self).progress
                    }
                    &&& final(self).engine_status == EngineStatus::Running
                },
                ProgressUpdate::SampleStarted { index, note, velocity, rr, .. } => {
                    &&& final(self).progress == ProgressState {
                        current_index: index,
                        current_note: note,
                        current_velocity: velocity,
                        current_rr: rr,
                        ..old(self).progress
                    }
                    &&& final(self).engine_status == old(self).engine_status
                },
                ProgressUpdate::SampleCompleted { .. } => {
                    &&& final(self).progress == ProgressState {
                        samples_completed: (old(self).progress.samples_completed + 1) as usize,
                        ..old(self).progress
                    }
                    &&& final(self).engine_status == old(self).engine_status
                },
                ProgressUpdate::SampleSkipped { .. } => {
                    &&& final(self).progress == ProgressState {
                        samples_skipped: (old(self).progress.samples_skipped + 1) as usize,
                        ..old(self).progress
                    }
                    &&& final(self).engine_status == old(self).engine_status
                },
                ProgressUpdate::SampleFailed { .. } => {
                    &&& final(self).progress == ProgressState {
                        samples_failed: (old(self).progress.samples_failed + 1) as usize,
                        ..old(self).progress
                    }
                    &&& final(self).engine_status == old(self).engine_status
                },
                ProgressUpdate::Completed { .. } => {
                    &&& final(self).progress == old(self).progress
                    &&& final(self).engine_status == EngineStatus::Completed
                },
                ProgressUpdate::Cancelled => {
                    &&& final(self).progress == old(self).progress
                    &&& final(self).engine_status == EngineStatus::Idle
                },
                ProgressUpdate::Log { .. } => {
                    &&& final(self).progress == old(self).progress
                    &&& final(self).engine_status == old(self).engine_status
                },
            },
    {
        match event {
            ProgressUpdate::Started { total_samples } => {
                self.progress.total_samples = total_samples;
                self.progress.current_index = 0;
                self.progress.samples_completed = 0;
                self.progress.samples_failed = 0;
                self.progress.samples_skipped = 0;
                self.engine_status = EngineStatus::Running;
            },
            ProgressUpdate::SampleStarted { index, note, velocity, rr, .. } => {
                self.progress.current_index = index;
                self.progress.current_note = note;
                self.progress.current_velocity = velocity;
                self.progress.current_rr = rr;
            },
            ProgressUpdate::SampleCompleted { .. } => {
                self.progress.samples_completed = self.progress.samples_completed + 1;
            },
            ProgressUpdate::SampleSkipped { .. } => {
                self.progress.samples_skipped = self.progress.samples_skipped + 1;
            },
            ProgressUpdate::SampleFailed { .. } => {
                self.progress.samples_failed = self.progress.samples_failed + 1;
            },
            ProgressUpdate::Completed { .. } => {
                self.engine_status = EngineStatus::Completed;
            },
            ProgressUpdate::Cancelled => {
                self.engine_status = EngineStatus::Idle;
            },
            ProgressUpdate::Log { level, message } => {
                self.add_log(level, message, timestamp);
            },
        }
    }

    /// Takes settings read from a preset: they replace the configuration,
    /// each selection goes to the device whose name is exactly the
    /// configured one (or none), and the preset is named after the prefix.
    pub fn apply_preset(&mut self, config: RunConfig<F>)
        ensures
            final(self).config == config,
            final(self).midi_devices == old(self).midi_devices,
            final(self).audio_devices == old(self).audio_devices,
            match final(self).selected_midi_idx {
                Some(i) => position_from(port_names(old(self).midi_devices@), config.midi_out@, 0)
                    == Some(i as int),
                None => position_from(port_names(old(self).midi_devices@), config.midi_out@, 0)
                    is None,
            },
            match final(self).selected_audio_idx {
                Some(i) => position_from(audio_names(old(self).audio_devices@), config.audio_in@, 0)
                    == Some(i as int),
                None => position_from(audio_names(old(self).audio_devices@), config.audio_in@, 0)
                    is None,
            },
            final(self).preset_name@ == config.prefix@,
            final(self).engine_status == old(self).engine_status,
            final(self).progress == old(self).progress,
            final(self).input_meter_db == old(self).input_meter_db,
            final(self).audio_permission_state == old(self).audio_permission_state,
            Self::same_flags(old(self), final(self)),
            final(self).logs == old(self).logs,
    {
        let midi_names = midi_name_list(&self.midi_devices);
        let audio_names_v = audio_name_list(&self.audio_devices);
        self.selected_midi_idx = position_of(config.midi_out.as_str(), &midi_names);
        self.selected_audio_idx = position_of(config.audio_in.as_str(), &audio_names_v);
        self.preset_name = config.prefix.clone();
        self.config = config;
    }

    /// Starts a new project: the log and progress are cleared, the session
    /// is idle, and the preset name and file prefix are emptied.
    pub fn clear_project(&mut self)
        ensures
            final(self).logs@.len() == 0,
            final(self).progress == zero_progress(),
            final(self).engine_status == EngineStatus::Idle,
            final(self).preset_name@.len() == 0,
            final(self).config.prefix@.len() == 0,
            final(self).config == (RunConfig { prefix: final(self).config.prefix, ..old(self).config }),
            final(self).midi_devices == old(self).midi_devices,
            final(self).audio_devices == old(self).audio_devices,
            final(self).selected_midi_idx == old(self).selected_midi_idx,
            final(self).selected_audio_idx == old(self).selected_audio_idx,
            final(self).input_meter_db == old(self).input_meter_db,
            final(self).audio_permission_state == old(self).audio_permission_state,
            Self::same_flags(old(self), final(self)),
    {
        self.logs.clear();
        self.progress = ProgressState::default();
        self.engine_status = EngineStatus::Idle;
        self.preset_name = String::new();
        self.config.prefix = String::new();
    }
}

/// The names of MIDI outputs.
pub fn midi_name_list(devices: &Vec<MidiPortInfo>) -> (r: Vec<String>)
    ensures
        texts(r@) == port_names(devices@),
{
    let mut names: Vec<String> = Vec::new();
    let mut i: usize = 0;
    while i < devices.len()
        invariant
            i <= devices.len(),
            texts(names@) == port_names(devices@).take(i as int),
        decreases devices.len() - i,
    {
        let ghost before = names@;
        let n = devices[i].name.clone();
        names.push(n);
        assert(texts(names@) =~= texts(before).push(devices@[i as int].name@));
        assert(port_names(devices@).take(i + 1) =~= port_names(devices@).take(i as int).push(
            devices@[i as int].name@,
        ));
        i = i + 1;
    }
    assert(port_names(devices@).take(devices.len() as int) =~= port_names(devices@));
    names
}

/// The names of audio inputs.
pub fn audio_name_list(devices: &Vec<AudioDeviceInfo>) -> (r: Vec<String>)
    ensures
        texts(r@) == audio_names(devices@),
{
    let mut names: Vec<String> = Vec::new();
    let mut i: usize = 0;
    while i < devices.len()
        invariant
            i <= devices.len(),
            texts(names@) == audio_names(devices@).take(i as int),
        decreases devices.len() - i,
    {
        let ghost before = names@;
        let n = devices[i].name.clone();
        names.push(n);
        assert(texts(names@) =~= texts(before).push(devices@[i as int].name@));
        assert(audio_names(devices@).take(i + 1) =~= audio_names(devices@).take(i as int).push(
            devices@[i as int].name@,
        ));
        i = i + 1;
    }
    assert(audio_names(devices@).take(devices.len() as int) =~= audio_names(devices@));
    names
}

} // verus!
