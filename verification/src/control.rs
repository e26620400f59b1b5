//! The front end's control of a sampling run: what must be set before a
//! run can start, whether a start, stop or project reset goes ahead, and
//! what each frame does about the audio permission and the input meter.
//! Clocks, devices, MIDI connections and the run's worker are the caller's;
//! these functions decide and keep the state.

use vstd::prelude::*;
use crate::parse::{
    notes_outcome, parse_error_text, try_parse_notes, try_parse_velocities, velocities_outcome,
};
use crate::state::{AppState, AudioInputPermissionState, DeviceScanState};
use crate::text::{chars_of, concat_str, dec_digits, push_all, push_decimal, string_from_chars, trim, trimmed, is_blank};
use crate::engine::texts;
use crate::types::{EngineStatus, LogLevel};

verus! {

// ---------------------------------------------------------------------------
// Readiness
// ---------------------------------------------------------------------------

/// `[item]` when `cond` holds, else nothing.
pub open spec fn item_if(cond: bool, item: Seq<char>) -> Seq<Seq<char>> {
    if cond {
        seq![item]
    } else {
        Seq::empty()
    }
}

/// Whether a reading outcome gives no values (a rejection counts).
pub open spec fn yields_nothing(r: Option<Result<Seq<u8>, crate::parse::ParseErrorView>>) -> bool {
    match r {
        Some(Ok(v)) => v.len() == 0,
        _ => true,
    }
}

/// The readings of the note and velocity fields finish wherever the
/// checklist reads them.
pub open spec fn readiness_readable<F>(state: &AppState<F>) -> bool {
    &&& trim(state.config.notes@).len() > 0 ==> notes_outcome(state.config.notes@) is Some
    &&& trim(state.config.vel@).len() > 0 ==> velocities_outcome(state.config.vel@) is Some
}

/// The checklist items about devices, permission and the output folder.
pub open spec fn setup_items<F>(state: &AppState<F>) -> Seq<Seq<char>> {
    item_if(trim(state.config.midi_out@).len() == 0, "Select a MIDI output device"@) + item_if(
        trim(state.config.audio_in@).len() == 0,
        "Select an audio input device"@,
    ) + item_if(
        state.audio_permission_state != AudioInputPermissionState::Granted,
        "Grant microphone permission (click \"Request Permission\" above)"@,
    ) + item_if(trim(state.config.output@).len() == 0, "Choose an output directory"@)
}

/// The checklist item about the note field.
pub open spec fn notes_item(notes: Seq<char>) -> Seq<Seq<char>> {
    if trim(notes).len() == 0 {
        seq!["Enter a note range/list"@]
    } else {
        item_if(
            yields_nothing(notes_outcome(notes)),
            "Enter a valid note range/list (e.g. C2..C6 or C4,E4,G4)"@,
        )
    }
}

/// The checklist item about the velocity field.
pub open spec fn velocity_item(vel: Seq<char>) -> Seq<Seq<char>> {
    if trim(vel).len() == 0 {
        seq!["Enter velocity layers"@]
    } else {
        item_if(
            yields_nothing(velocities_outcome(vel)),
            "Enter valid velocity layers (e.g. 127,100,64)"@,
        )
    }
}

/// What is still missing before a run can start, in checklist order.
pub open spec fn missing_items<F>(state: &AppState<F>) -> Seq<Seq<char>> {
    setup_items(state) + notes_item(state.config.notes@) + velocity_item(state.config.vel@)
        + item_if(
        state.device_scan_state == DeviceScanState::Scanning,
        "Wait for device refresh to complete"@,
    )
}

fn push_item(items: &mut Vec<String>, item: &str)
    ensures
        texts(final(items)@) == texts(old(items)@).push(item@),
{
    let ghost before = items@;
    items.push(item.to_owned());
    assert(texts(items@) =~= texts(before).push(item@));
}

fn push_item_if(items: &mut Vec<String>, cond: bool, item: &str)
    ensures
        texts(final(items)@) == texts(old(items)@) + item_if(cond, item@),
{
    if cond {
        push_item(items, item);
        assert(texts(old(items)@).push(item@) =~= texts(old(items)@) + seq![item@]);
    } else {
        assert(texts(items@) =~= texts(items@) + Seq::<Seq<char>>::empty());
    }
}

fn push_setup_items<F>(items: &mut Vec<String>, state: &AppState<F>)
    ensures
        texts(final(items)@) == texts(old(items)@) + setup_items(state),
{
    let ghost s0 = texts(items@);
    push_item_if(items, is_blank(state.config.midi_out.as_str()), "Select a MIDI output device");
    push_item_if(items, is_blank(state.config.audio_in.as_str()), "Select an audio input device");
    push_item_if(
        items,
        !state.audio_permission_is_granted(),
        "Grant microphone permission (click \"Request Permission\" above)",
    );
    push_item_if(items, is_blank(state.config.output.as_str()), "Choose an output directory");
    assert(texts(items@) =~= s0 + setup_items(state));
}

fn push_notes_item(items: &mut Vec<String>, notes: &str)
    requires
        trim(notes@).len() > 0 ==> notes_outcome(notes@) is Some,
    ensures
        texts(final(items)@) == texts(old(items)@) + notes_item(notes@),
{
    if is_blank(notes) {
        push_item_if(items, true, "Enter a note range/list");
    } else {
        let bad = match try_parse_notes(notes) {
            Some(Ok(v)) => v.len() == 0,
            _ => true,
        };
        push_item_if(items, bad, "Enter a valid note range/list (e.g. C2..C6 or C4,E4,G4)");
    }
}

fn push_velocity_item(items: &mut Vec<String>, vel: &str)
    requires
        trim(vel@).len() > 0 ==> velocities_outcome(vel@) is Some,
    ensures
        texts(final(items)@) == texts(old(items)@) + velocity_item(vel@),
{
    if is_blank(vel) {
        push_item_if(items, true, "Enter velocity layers");
    } else {
        let bad = match try_parse_velocities(vel) {
            Some(Ok(v)) => v.len() == 0,
            _ => true,
        };
        push_item_if(items, bad, "Enter valid velocity layers (e.g. 127,100,64)");
    }
}

/// The checklist before a run: whether nothing is missing, and what is.
pub fn readiness_check<F>(state: &AppState<F>) -> (r: (bool, Vec<String>))
    requires
        readiness_readable(state),
    ensures
        texts(r.1@) == missing_items(state),
        r.0 == (r.1@.len() == 0),
{
    let mut missing: Vec<String> = Vec::new();
    assert(texts(missing@) =~= Seq::<Seq<char>>::empty());
    push_setup_items(&mut missing, state);
    push_notes_item(&mut missing, state.config.notes.as_str());
    push_velocity_item(&mut missing, state.config.vel.as_str());
    push_item_if(
        &mut missing,
        state.is_device_scan_running(),
        "Wait for device refresh to complete",
    );
    assert(texts(missing@) =~= missing_items(state));
    let ready = missing.len() == 0;
    (ready, missing)
}

// ---------------------------------------------------------------------------
// Starting and stopping a run
// ---------------------------------------------------------------------------

/// How long a new start is refused after a stop, while the MIDI backend
/// settles, in milliseconds.
pub open spec fn post_stop_settle_ms() -> nat {
    2000
}

/// The front end's run control, besides what `AppState` holds.
#[derive(Debug, Clone, Copy, PartialEq, Eq, Structural)]
pub struct SessionControl {
    /// A stop was asked for and the run has not ended yet.
    pub stop_requested: bool,
    /// Until when (on the caller's millisecond clock) a new start waits.
    pub restart_blocked_until_ms: Option<u64>,
    /// Whether the startup audio permission check has been run.
    pub startup_audio_permission_probe_done: bool,
}

/// What a request to start a run comes to.
#[derive(Debug)]
pub enum StartDecision {
    /// A run is going on; nothing happens.
    AlreadyRunning,
    /// The start was refused and the reason logged.
    Refused,
    /// The start waits `remaining_ms` more for the MIDI backend to settle
    /// after a stop; the caller reports the wait.
    Settling { remaining_ms: u64 },
    /// The selections were read: open the MIDI output `midi_target`, then
    /// run the session over `notes` and `velocities`.
    Launch { notes: Vec<u8>, velocities: Vec<u8>, midi_target: String },
}

/// `Validated: <n> note(s), <m> velocity layer(s).`
pub open spec fn validated_text(notes: nat, layers: nat) -> Seq<char> {
    "Validated: "@ + dec_digits(notes) + " note(s), "@ + dec_digits(layers)
        + " velocity layer(s)."@
}

/// `Opening MIDI connection for '<target>'…`
pub open spec fn opening_text(target: Seq<char>) -> Seq<char> {
    "Opening MIDI connection for '"@ + target + "'…"@
}

fn validated_message(notes: usize, layers: usize) -> (r: String)
    ensures
        r@ == validated_text(notes as nat, layers as nat),
{
    let mut out = chars_of("Validated: ");
    push_decimal(&mut out, notes as u64, 0);
    let t = chars_of(" note(s), ");
    push_all(&mut out, &t);
    push_decimal(&mut out, layers as u64, 0);
    let u = chars_of(" velocity layer(s).");
    push_all(&mut out, &u);
    string_from_chars(&out)
}

impl SessionControl {
    /// No stop pending, no wait, the startup check not yet run.
    pub fn new() -> (r: SessionControl)
        ensures
            !r.stop_requested,
            r.restart_blocked_until_ms is None,
            !r.startup_audio_permission_probe_done,
    {
        SessionControl {
            stop_requested: false,
            restart_blocked_until_ms: None,
            startup_audio_permission_probe_done: false,
        }
    }

    /// Whether a start at `now_ms` passes the checks before the selections
    /// are read.
    pub open spec fn start_reaches_reading<F>(
        &self,
        state: &AppState<F>,
        engine_running: bool,
        now_ms: u64,
    ) -> bool {
        &&& !engine_running
        &&& state.device_scan_state != DeviceScanState::Scanning
        &&& state.audio_permission_state == AudioInputPermissionState::Granted
        &&& !self.stop_requested
        &&& !(self.restart_blocked_until_ms matches Some(u) && now_ms < u)
    }

    /// The readings of the selections finish wherever a start reads them.
    pub open spec fn start_readable<F>(
        &self,
        state: &AppState<F>,
        engine_running: bool,
        now_ms: u64,
    ) -> bool {
        self.start_reaches_reading(state, engine_running, now_ms) ==> {
            &&& notes_outcome(state.config.notes@) is Some
            &&& (notes_outcome(state.config.notes@) matches Some(Ok(n)) && n.len() > 0)
                ==> velocities_outcome(state.config.vel@) is Some
        }
    }

    /// A request to start a run at `now_ms`. It is refused, with a log
    /// line, while a device refresh runs, without audio permission (the
    /// line ends with `permission_hint`), or while a stop is pending; it
    /// waits while the backend settles after a stop. Then the note and
    /// velocity selections are read: a rejection or an empty selection
    /// refuses the start; otherwise the counts are logged, the opening of
    /// the configured MIDI output is announced, and the run may launch.
    pub fn start_session<F>(
        &mut self,
        state: &mut AppState<F>,
        engine_running: bool,
        now_ms: u64,
        permission_hint: &str,
        timestamp: String,
    ) -> (r: StartDecision)
        requires
            old(self).start_readable(old(state), engine_running, now_ms),
        ensures
            engine_running ==> r is AlreadyRunning && *final(state) == *old(state) && *final(self)
                == *old(self),
            !engine_running && old(state).device_scan_state == DeviceScanState::Scanning ==> r is Refused
                && *final(self) == *old(self) && AppState::only_logged(
                old(state),
                final(state),
                (timestamp@, LogLevel::Warning, "Start blocked: device refresh is still running."@),
            ),
            !engine_running && old(state).device_scan_state != DeviceScanState::Scanning
                && old(state).audio_permission_state != AudioInputPermissionState::Granted ==> r is Refused
                && *final(self) == *old(self) && AppState::only_logged(
                old(state),
                final(state),
                (
                    timestamp@,
                    LogLevel::Error,
                    "Start blocked: audio input permission is not granted. "@ + permission_hint@,
                ),
            ),
            !engine_running && old(state).device_scan_state != DeviceScanState::Scanning
                && old(state).audio_permission_state == AudioInputPermissionState::Granted
                && old(self).stop_requested ==> r is Refused && *final(self) == *old(self)
                && AppState::only_logged(
                old(state),
                final(state),
                (timestamp@, LogLevel::Warning, "Start blocked: stop is still in progress."@),
            ),
            !engine_running && old(state).device_scan_state != DeviceScanState::Scanning
                && old(state).audio_permission_state == AudioInputPermissionState::Granted
                && !old(self).stop_requested && (old(self).restart_blocked_until_ms matches Some(u)
                && now_ms < u) ==> r == (StartDecision::Settling {
                remaining_ms: (old(self).restart_blocked_until_ms.unwrap() - now_ms) as u64,
            }) && *final(state) == *old(state) && *final(self) == *old(self),
            old(self).start_reaches_reading(old(state), engine_running, now_ms) ==> {
                &&& final(self).restart_blocked_until_ms is None
                &&& final(self).stop_requested == old(self).stop_requested
                &&& final(self).startup_audio_permission_probe_done
                    == old(self).startup_audio_permission_probe_done
                &&& match notes_outcome(old(state).config.notes@) {
                    Some(Err(e)) => r is Refused && AppState::only_logged(
                        old(state),
                        final(state),
                        (
                            timestamp@,
                            LogLevel::Error,
                            "Start failed: invalid note range/list: "@ + parse_error_text(e),
                        ),
                    ),
                    Some(Ok(n)) => if n.len() == 0 {
                        r is Refused && AppState::only_logged(
                            old(state),
                            final(state),
                            (
                                timestamp@,
                                LogLevel::Error,
                                "Start failed: note selection resolved to zero notes."@,
                            ),
                        )
                    } else {
                        match velocities_outcome(old(state).config.vel@) {
                            Some(Err(e)) => r is Refused && AppState::only_logged(
                                old(state),
                                final(state),
                                (
                                    timestamp@,
                                    LogLevel::Error,
                                    "Start failed: invalid velocity layers: "@ + parse_error_text(e),
                                ),
                            ),
                            Some(Ok(v)) => if v.len() == 0 {
                                r is Refused && AppState::only_logged(
                                    old(state),
                                    final(state),
                                    (
                                        timestamp@,
                                        LogLevel::Error,
                                        "Start failed: velocity selection resolved to zero layers."@,
                                    ),
                                )
                            } else {
                                &&& r matches StartDecision::Launch { notes, velocities, midi_target }
                                    && notes@ == n && velocities@ == v && midi_target@
                                    == old(state).config.midi_out@
                                &&& AppState::same_devices(old(state), final(state))
                                &&& AppState::same_session(old(state), final(state))
                                &&& AppState::same_flags(old(state), final(state))
                                &&& AppState::logged(
                                    old(state),
                                    final(state),
                                    seq![
                                        (
                                            timestamp@,
                                            LogLevel::Info,
                                            validated_text(n.len(), v.len()),
                                        ),
                                        (
                                            timestamp@,
                                            LogLevel::Info,
                                            opening_text(old(state).config.midi_out@),
                                        ),
                                    ],
                                )
                            },
                            None => false,
                        }
                    },
                    None => false,
                }
            },
    {
        if engine_running {
            return StartDecision::AlreadyRunning;
        }
        if state.is_device_scan_running() {
            state.add_log(
                LogLevel::Warning,
                "Start blocked: device refresh is still running.".to_owned(),
                timestamp,
            );
            return StartDecision::Refused;
        }
        if !state.audio_permission_is_granted() {
            let msg = concat_str("Start blocked: audio input permission is not granted. ", permission_hint);
            state.add_log(LogLevel::Error, msg, timestamp);
            return StartDecision::Refused;
        }
        if self.stop_requested {
            state.add_log(
                LogLevel::Warning,
                "Start blocked: stop is still in progress.".to_owned(),
                timestamp,
            );
            return StartDecision::Refused;
        }
        if let Some(blocked_until) = self.restart_blocked_until_ms {
            if now_ms < blocked_until {
                return StartDecision::Settling { remaining_ms: blocked_until - now_ms };
            }
            self.restart_blocked_until_ms = None;
        }
        let notes = match try_parse_notes(state.config.notes.as_str()) {
            Some(Ok(n)) => {
                if n.len() == 0 {
                    state.add_log(
                        LogLevel::Error,
                        "Start failed: note selection resolved to zero notes.".to_owned(),
                        timestamp,
                    );
                    return StartDecision::Refused;
                }
                n
            },
            Some(Err(e)) => {
                let text = e.message();
                let msg = concat_str("Start failed: invalid note range/list: ", text.as_str());
                state.add_log(LogLevel::Error, msg, timestamp);
                return StartDecision::Refused;
            },
            None => {
                return StartDecision::Refused;
            },
        };
        let velocities = match try_parse_velocities(state.config.vel.as_str()) {
            Some(Ok(v)) => {
                if v.len() == 0 {
                    state.add_log(
                        LogLevel::Error,
                        "Start failed: velocity selection resolved to zero layers.".to_owned(),
                        timestamp,
                    );
                    return StartDecision::Refused;
                }
                v
            },
            Some(Err(e)) => {
                let text = e.message();
                let msg = concat_str("Start failed: invalid velocity layers: ", text.as_str());
                state.add_log(LogLevel::Error, msg, timestamp);
                return StartDecision::Refused;
            },
            None => {
                return StartDecision::Refused;
            },
        };
        let ghost before = *state;
        let validated = validated_message(notes.len(), velocities.len());
        state.add_log(LogLevel::Info, validated, timestamp.clone());
        let ghost mid = *state;
        let midi_target = state.config.midi_out.clone();
        let opening = {
            let mut out = chars_of("Opening MIDI connection for '");
            let t = chars_of(midi_target.as_str());
            push_all(&mut out, &t);
            let u = chars_of("'…");
            push_all(&mut out, &u);
            string_from_chars(&out)
        };
        state.add_log(LogLevel::Info, opening, timestamp);
        proof {
            let a = (timestamp@, LogLevel::Info, validated_text(notes@.len(), velocities@.len()));
            let b = (timestamp@, LogLevel::Info, opening_text(before.config.midi_out@));
            assert(crate::state::log_views(state.logs@) =~= crate::state::log_views(before.logs@)
                + seq![a, b]);
        }
        StartDecision::Launch { notes, velocities, midi_target }
    }
}

impl SessionControl {
    /// The MIDI output for a launching run could not be opened; `error`
    /// is logged and the run does not start.
    pub fn midi_connection_failed<F>(&self, state: &mut AppState<F>, error: &str, timestamp: String)
        ensures
            AppState::only_logged(
                old(state),
                final(state),
                (timestamp@, LogLevel::Error, "Start failed: MIDI connection failed: "@ + error@),
            ),
    {
        let msg = concat_str("Start failed: MIDI connection failed: ", error);
        state.add_log(LogLevel::Error, msg, timestamp);
    }

    /// The run was launched on the MIDI output `port_name`: it is logged
    /// and the session is running.
    pub fn session_launched<F>(&self, state: &mut AppState<F>, port_name: &str, timestamp: String)
        ensures
            final(state).engine_status == EngineStatus::Running,
            AppState::same_devices(old(state), final(state)),
            AppState::same_flags(old(state), final(state)),
            final(state).progress == old(state).progress,
            final(state).input_meter_db == old(state).input_meter_db,
            final(state).audio_permission_state == old(state).audio_permission_state,
            final(state).preset_name == old(state).preset_name,
            AppState::logged(
                old(state),
                final(state),
                seq![(timestamp@, LogLevel::Info, "MIDI connected: "@ + port_name@)],
            ),
    {
        let msg = concat_str("MIDI connected: ", port_name);
        state.add_log(LogLevel::Info, msg, timestamp);
        state.engine_status = EngineStatus::Running;
    }

    /// A request to stop at `now_ms`: the stop is logged and new starts wait
    /// for the backend to settle; the stop stays pending only while a run
    /// is going on. The caller signals the run's cancel flag.
    pub fn stop_session<F>(
        &mut self,
        state: &mut AppState<F>,
        engine_running: bool,
        now_ms: u64,
        timestamp: String,
    )
        requires
            now_ms + post_stop_settle_ms() <= u64::MAX,
        ensures
            final(self).stop_requested == engine_running,
            final(self).restart_blocked_until_ms == Some((now_ms + post_stop_settle_ms()) as u64),
            final(self).startup_audio_permission_probe_done
                == old(self).startup_audio_permission_probe_done,
            AppState::only_logged(
                old(state),
                final(state),
                (timestamp@, LogLevel::Info, "Stop requested: cancelling active sampling loop."@),
            ),
    {
        self.stop_requested = true;
        self.restart_blocked_until_ms = Some(now_ms + 2000);
        state.add_log(
            LogLevel::Info,
            "Stop requested: cancelling active sampling loop.".to_owned(),
            timestamp,
        );
        if !engine_running {
            self.stop_requested = false;
        }
    }

    /// Each frame, once the run's worker is known to have ended or not: a
    /// pending stop of an ended run completes and is logged.
    pub fn observe_engine<F>(&mut self, state: &mut AppState<F>, engine_running: bool, timestamp: String)
        ensures
            !engine_running && old(self).stop_requested ==> !final(self).stop_requested
                && AppState::only_logged(
                old(state),
                final(state),
                (timestamp@, LogLevel::Info, "Stop complete: sampling loop terminated."@),
            ),
            !(!engine_running && old(self).stop_requested) ==> *final(self) == *old(self)
                && *final(state) == *old(state),
            final(self).restart_blocked_until_ms == old(self).restart_blocked_until_ms,
            final(self).startup_audio_permission_probe_done
                == old(self).startup_audio_permission_probe_done,
    {
        if !engine_running && self.stop_requested {
            self.stop_requested = false;
            state.add_log(
                LogLevel::Info,
                "Stop complete: sampling loop terminated.".to_owned(),
                timestamp,
            );
        }
    }

    /// A request to reset the project: refused with a warning while a run
    /// or its stop is going on, otherwise the project is cleared.
    pub fn clear_project_requested<F>(
        &self,
        state: &mut AppState<F>,
        engine_running: bool,
        timestamp: String,
    ) -> (cleared: bool)
        ensures
            cleared == !(engine_running || self.stop_requested),
            !cleared ==> AppState::only_logged(
                old(state),
                final(state),
                (
                    timestamp@,
                    LogLevel::Warning,
                    "Clear Project blocked while run teardown is in progress."@,
                ),
            ),
            cleared ==> AppState::project_cleared(old(state), final(state)),
    {
        if engine_running || self.stop_requested {
            state.add_log(
                LogLevel::Warning,
                "Clear Project blocked while run teardown is in progress.".to_owned(),
                timestamp,
            );
            false
        } else {
            state.clear_project();
            true
        }
    }

    /// The audio permission work of a frame: a pending recheck request
    /// resets the permission, re-arms the startup check and is logged;
    /// then, when the startup check has not run, no refresh runs and an
    /// input is configured, the check is due (`true`) and counts as run.
    pub fn permission_frame<F>(&mut self, state: &mut AppState<F>, timestamp: String) -> (probe: bool)
        ensures
            final(self).stop_requested == old(self).stop_requested,
            final(self).restart_blocked_until_ms == old(self).restart_blocked_until_ms,
            !final(state).recheck_requested(),
            old(state).recheck_requested() ==> final(state).audio_permission_state
                == AudioInputPermissionState::Unknown && AppState::logged(
                old(state),
                final(state),
                seq![(timestamp@, LogLevel::Info, "Retrying audio permission check…"@)],
            ),
            !old(state).recheck_requested() ==> final(state).audio_permission_state
                == old(state).audio_permission_state && final(state).logs == old(state).logs,
            probe == (!(old(self).startup_audio_permission_probe_done && !old(
                state,
            ).recheck_requested()) && old(state).device_scan_state != DeviceScanState::Scanning
                && trim(old(state).config.audio_in@).len() > 0),
            final(self).startup_audio_permission_probe_done == (probe || (
            old(self).startup_audio_permission_probe_done && !old(state).recheck_requested())),
            AppState::same_devices(old(state), final(state)),
            final(state).engine_status == old(state).engine_status,
            final(state).progress == old(state).progress,
            final(state).input_meter_db == old(state).input_meter_db,
            final(state).preset_name == old(state).preset_name,
            final(state).device_scan_state == old(state).device_scan_state,
            final(state).pending_midi_error() == old(state).pending_midi_error(),
    {
        if state.consume_audio_permission_recheck_requested() {
            state.reset_audio_permission_state();
            self.startup_audio_permission_probe_done = false;
            state.add_log(LogLevel::Info, "Retrying audio permission check…".to_owned(), timestamp);
        }
        if !self.startup_audio_permission_probe_done && !state.is_device_scan_running()
            && !is_blank(state.config.audio_in.as_str()) {
            self.startup_audio_permission_probe_done = true;
            true
        } else {
            false
        }
    }
}

/// What the check of a device's audio input found.
pub enum ProbeOutcome {
    /// The configured input could not be found or opened; holds the error.
    DeviceUnavailable(String),
    /// The input was found but its stream did not start; holds the error.
    StreamFailed(String),
    /// The input's stream started.
    Opened,
}

impl<F> AppState<F> {
    /// `b` is `a` after `clear_project`.
    pub open spec fn project_cleared(a: &Self, b: &Self) -> bool {
        &&& b.logs@.len() == 0
        &&& b.progress == crate::state::zero_progress()
        &&& b.engine_status == EngineStatus::Idle
        &&& b.preset_name@.len() == 0
        &&& b.config.prefix@.len() == 0
        &&& b.config == (crate::types::RunConfig { prefix: b.config.prefix, ..a.config })
        &&& b.midi_devices == a.midi_devices
        &&& b.audio_devices == a.audio_devices
        &&& b.selected_midi_idx == a.selected_midi_idx
        &&& b.selected_audio_idx == a.selected_audio_idx
        &&& b.input_meter_db == a.input_meter_db
        &&& b.audio_permission_state == a.audio_permission_state
        &&& Self::same_flags(a, b)
    }

    /// The start of an audio permission check: nothing when no input is
    /// configured; otherwise the check is under way and the input's name
    /// (trimmed) comes back for the caller to open.
    pub fn begin_permission_probe(&mut self) -> (r: Option<String>)
        ensures
            trim(old(self).config.audio_in@).len() == 0 ==> r is None && *final(self) == *old(self),
            trim(old(self).config.audio_in@).len() > 0 ==> (r matches Some(a) && a@ == trim(
                old(self).config.audio_in@,
            ) && final(self).audio_permission_state == AudioInputPermissionState::Checking
                && Self::only_permission_changed(old(self), final(self))),
    {
        if is_blank(self.config.audio_in.as_str()) {
            return None;
        }
        let audio_in = trimmed(self.config.audio_in.as_str());
        self.set_audio_permission_checking();
        Some(audio_in)
    }

    /// The reason an input was refused, as the state keeps it.
    pub open spec fn probe_refusal(outcome: ProbeOutcome, audio_in: Seq<char>, hint: Seq<char>) -> Seq<char> {
        match outcome {
            ProbeOutcome::DeviceUnavailable(e) => "Could not open input device '"@ + audio_in + "': "@
                + e@ + ". "@ + hint,
            ProbeOutcome::StreamFailed(e) => "Audio input stream could not start: "@ + e@ + ". "@
                + hint,
            ProbeOutcome::Opened => Seq::empty(),
        }
    }

    /// The end of an audio permission check of `audio_in`, started for
    /// `reason`: an opened stream grants the permission, anything else
    /// refuses it with a reason that ends with `hint`; either is logged.
    pub fn finish_permission_probe(
        &mut self,
        outcome: ProbeOutcome,
        audio_in: &str,
        reason: &str,
        hint: &str,
        timestamp: String,
    )
        ensures
            Self::same_devices(old(self), final(self)),
            Self::same_flags(old(self), final(self)),
            final(self).engine_status == old(self).engine_status,
            final(self).progress == old(self).progress,
            final(self).input_meter_db == old(self).input_meter_db,
            final(self).preset_name == old(self).preset_name,
            match outcome {
                ProbeOutcome::Opened => {
                    &&& final(self).audio_permission_state == AudioInputPermissionState::Granted
                    &&& Self::logged(
                        old(self),
                        final(self),
                        seq![
                            (
                                timestamp@,
                                LogLevel::Info,
                                "Audio input access confirmed ("@ + reason@ + ")."@,
                            ),
                        ],
                    )
                },
                _ => {
                    let why = Self::probe_refusal(outcome, audio_in@, hint@);
                    &&& final(self).audio_permission_state matches AudioInputPermissionState::Denied(d)
                        && d@ == why
                    &&& Self::logged(
                        old(self),
                        final(self),
                        seq![(timestamp@, LogLevel::Warning, "Audio permission check failed: "@ + why)],
                    )
                },
            },
    {
        let ghost expected = Self::probe_refusal(outcome, audio_in@, hint@);
        let why = match outcome {
            ProbeOutcome::Opened => {
                self.set_audio_permission_granted();
                let a = concat_str("Audio input access confirmed (", reason);
                let msg = concat_str(a.as_str(), ").");
                self.add_log(LogLevel::Info, msg, timestamp);
                return;
            },
            ProbeOutcome::DeviceUnavailable(e) => {
                let a = concat_str("Could not open input device '", audio_in);
                let b = concat_str(a.as_str(), "': ");
                let c = concat_str(b.as_str(), e.as_str());
                let d = concat_str(c.as_str(), ". ");
                concat_str(d.as_str(), hint)
            },
            ProbeOutcome::StreamFailed(e) => {
                let a = concat_str("Audio input stream could not start: ", e.as_str());
                let b = concat_str(a.as_str(), ". ");
                concat_str(b.as_str(), hint)
            },
        };
        assert(why@ == expected);
        self.set_audio_permission_denied(why.clone());
        let msg = concat_str("Audio permission check failed: ", why.as_str());
        self.add_log(LogLevel::Warning, msg, timestamp);
    }

    /// How the permission menu shows the check's state.
    pub fn audio_permission_menu_status(&self) -> (r: &'static str)
        ensures
            r@ == match self.audio_permission_state {
                AudioInputPermissionState::Unknown => "Not checked yet"@,
                AudioInputPermissionState::Checking => "Checking…"@,
                AudioInputPermissionState::Granted => "Granted"@,
                AudioInputPermissionState::Denied(_) => "Blocked"@,
            },
    {
        match self.audio_permission_state {
            AudioInputPermissionState::Unknown => "Not checked yet",
            AudioInputPermissionState::Checking => "Checking…",
            AudioInputPermissionState::Granted => "Granted",
            AudioInputPermissionState::Denied(_) => "Blocked",
        }
    }
}

// ---------------------------------------------------------------------------
// Input meter and emergency silence
// ---------------------------------------------------------------------------

/// What the input meter listens to: an input, a sample rate and a channel
/// count.
pub type MeterKey = (String, u32, u16);

pub open spec fn meter_key_view(k: Option<MeterKey>) -> Option<(Seq<char>, u32, u16)> {
    match k {
        Some((a, sr, ch)) => Some((a@, sr, ch)),
        None => None,
    }
}

/// The meter wanted for the settings: the trimmed input at the configured
/// rate and channels, or none when no input is configured.
pub fn desired_meter_key<F>(state: &AppState<F>) -> (r: Option<MeterKey>)
    ensures
        meter_key_view(r) == (if trim(state.config.audio_in@).len() == 0 {
            None
        } else {
            Some((trim(state.config.audio_in@), state.config.sr, state.config.channels))
        }),
{
    if is_blank(state.config.audio_in.as_str()) {
        None
    } else {
        Some((trimmed(state.config.audio_in.as_str()), state.config.sr, state.config.channels))
    }
}

/// What to do with the input meter this frame.
#[derive(Debug)]
pub enum MeterAction {
    /// Close the meter (and forget its level).
    Stop,
    /// Leave the running meter as it is.
    Keep,
    /// Close the meter and open one on the given input.
    Restart(MeterKey),
}

/// The meter runs only while no session runs, the permission is granted
/// and an input is configured; it is reopened when the wanted input or
/// format changes.
pub fn meter_action(
    engine_running: bool,
    permission_granted: bool,
    desired: Option<MeterKey>,
    current: &Option<MeterKey>,
) -> (r: MeterAction)
    ensures
        (engine_running || !permission_granted || desired is None) ==> r is Stop,
        !(engine_running || !permission_granted || desired is None) ==> (if meter_key_view(desired)
            == meter_key_view(*current) {
            r is Keep
        } else {
            r matches MeterAction::Restart(k) && meter_key_view(Some(k)) == meter_key_view(desired)
        }),
{
    if engine_running || !permission_granted {
        return MeterAction::Stop;
    }
    match desired {
        None => MeterAction::Stop,
        Some(d) => {
            let same = match current {
                Some(c) => crate::state::same_text(c.0.as_str(), d.0.as_str()) && c.1 == d.1 && c.2
                    == d.2,
                None => false,
            };
            if same {
                MeterAction::Keep
            } else {
                MeterAction::Restart(d)
            }
        },
    }
}

/// What an emergency "all notes off" does.
#[derive(Debug)]
pub enum NotesOffStep {
    /// A run is going on: signal its cancel flag, which silences it.
    CancelRun,
    /// No MIDI output is configured: nothing to do.
    Nothing,
    /// Send all notes off to this output (trimmed name).
    Send(String),
}

/// An emergency "all notes off" for `reason`: while a run goes on it is
/// cancelled; otherwise, when an output is configured, the sending is
/// logged and the output named.
pub fn all_notes_off_step<F>(
    state: &mut AppState<F>,
    engine_running: bool,
    reason: &str,
    timestamp: String,
) -> (r: NotesOffStep)
    ensures
        engine_running ==> r is CancelRun && *final(state) == *old(state),
        !engine_running && trim(old(state).config.midi_out@).len() == 0 ==> r is Nothing
            && *final(state) == *old(state),
        !engine_running && trim(old(state).config.midi_out@).len() > 0 ==> (r matches NotesOffStep::Send(t)
            && t@ == trim(old(state).config.midi_out@) && AppState::only_logged(
            old(state),
            final(state),
            (
                timestamp@,
                LogLevel::Info,
                "Sending All Notes Off for '"@ + trim(old(state).config.midi_out@) + "' ("@ + reason@
                    + ")"@,
            ),
        )),
{
    if engine_running {
        return NotesOffStep::CancelRun;
    }
    if is_blank(state.config.midi_out.as_str()) {
        return NotesOffStep::Nothing;
    }
    let target = trimmed(state.config.midi_out.as_str());
    let a = concat_str("Sending All Notes Off for '", target.as_str());
    let b = concat_str(a.as_str(), "' (");
    let c = concat_str(b.as_str(), reason);
    let msg = concat_str(c.as_str(), ")");
    state.add_log(LogLevel::Info, msg, timestamp);
    NotesOffStep::Send(target)
}

// ---------------------------------------------------------------------------
// Run panel
// ---------------------------------------------------------------------------

/// How the run panel names a session's status.
pub open spec fn status_label(status: EngineStatus) -> Seq<char> {
    match status {
        EngineStatus::Idle => "Idle"@,
        EngineStatus::Running => "🟢 Running"@,
        EngineStatus::Paused => "🟡 Paused"@,
        EngineStatus::Completed => "✅ Completed"@,
        EngineStatus::Error => "🔴 Error"@,
    }
}

pub fn status_text(status: EngineStatus) -> (r: &'static str)
    ensures
        r@ == status_label(status),
{
    match status {
        EngineStatus::Idle => "Idle",
        EngineStatus::Running => "🟢 Running",
        EngineStatus::Paused => "🟡 Paused",
        EngineStatus::Completed => "✅ Completed",
        EngineStatus::Error => "🔴 Error",
    }
}

/// Which controls the run panel offers.
#[derive(Debug, Clone, Copy, PartialEq, Eq)]
pub struct RunControls {
    /// The start button is shown.
    pub start_shown: bool,
    /// The start button can be pressed.
    pub start_enabled: bool,
    /// The button that opens the samples folder is shown.
    pub open_folder_shown: bool,
    /// The stop button is shown.
    pub stop_shown: bool,
    /// The hint to fix the checklist is shown.
    pub fix_hint_shown: bool,
}

/// Start is offered when idle or completed, and enabled once ready; the
/// samples folder can be opened after a completed run; stop is offered
/// while running; the checklist hint shows when start is offered but not
/// ready.
pub fn run_controls(status: EngineStatus, ready: bool) -> (r: RunControls)
    ensures
        r.start_shown == (status == EngineStatus::Idle || status == EngineStatus::Completed),
        r.start_enabled == (r.start_shown && ready),
        r.open_folder_shown == (status == EngineStatus::Completed),
        r.stop_shown == (status == EngineStatus::Running),
        r.fix_hint_shown == (r.start_shown && !ready),
{
    let start_shown = status == EngineStatus::Idle || status == EngineStatus::Completed;
    RunControls {
        start_shown,
        start_enabled: start_shown && ready,
        open_folder_shown: status == EngineStatus::Completed,
        stop_shown: status == EngineStatus::Running,
        fix_hint_shown: start_shown && !ready,
    }
}

/// The folder the samples of the configured run go to, as path pieces to
/// join: the trimmed output folder, then the trimmed prefix when there is
/// one.
pub fn samples_output_dir<F>(state: &AppState<F>) -> (r: Vec<String>)
    ensures
        texts(r@) == seq![trim(state.config.output@)] + item_if(
            trim(state.config.prefix@).len() > 0,
            trim(state.config.prefix@),
        ),
{
    let mut parts: Vec<String> = Vec::new();
    parts.push(trimmed(state.config.output.as_str()));
    let ghost first = texts(parts@);
    assert(first =~= seq![trim(state.config.output@)]);
    if !is_blank(state.config.prefix.as_str()) {
        let p = trimmed(state.config.prefix.as_str());
        parts.push(p);
        assert(texts(parts@) =~= first + seq![trim(state.config.prefix@)]);
    } else {
        assert(texts(parts@) =~= first + Seq::<Seq<char>>::empty());
    }
    parts
}

/// Which warning the run panel shows about the audio permission.
#[derive(Debug, PartialEq, Eq)]
pub enum PermissionBanner {
    /// None: the permission is granted or being checked.
    Hidden,
    /// The permission has not been checked.
    NotChecked,
    /// The permission was refused, for this reason.
    Blocked(String),
}

pub fn permission_banner<F>(state: &AppState<F>) -> (r: PermissionBanner)
    ensures
        match state.audio_permission_state {
            AudioInputPermissionState::Granted | AudioInputPermissionState::Checking => r is Hidden,
            AudioInputPermissionState::Unknown => r is NotChecked,
            AudioInputPermissionState::Denied(why) => r matches PermissionBanner::Blocked(b) && b@
                == why@,
        },
{
    match &state.audio_permission_state {
        AudioInputPermissionState::Granted | AudioInputPermissionState::Checking => {
            PermissionBanner::Hidden
        },
        AudioInputPermissionState::Unknown => PermissionBanner::NotChecked,
        AudioInputPermissionState::Denied(why) => PermissionBanner::Blocked(why.clone()),
    }
}

// ---------------------------------------------------------------------------
// Devices panel
// ---------------------------------------------------------------------------

impl<F> AppState<F> {
    /// The configured devices follow the selections: a selected output or
    /// input that exists gives its name to the settings.
    pub fn sync_device_selection(&mut self)
        ensures
            final(self).config.midi_out@ == (match old(self).selected_midi_idx {
                Some(i) if i < old(self).midi_devices@.len() => old(self).midi_devices@[i as int].name@,
                _ => old(self).config.midi_out@,
            }),
            final(self).config.audio_in@ == (match old(self).selected_audio_idx {
                Some(i) if i < old(self).audio_devices@.len() => old(
                    self,
                ).audio_devices@[i as int].name@,
                _ => old(self).config.audio_in@,
            }),
            final(self).config == (crate::types::RunConfig {
                midi_out: final(self).config.midi_out,
                audio_in: final(self).config.audio_in,
                ..old(self).config
            }),
            final(self).midi_devices == old(self).midi_devices,
            final(self).audio_devices == old(self).audio_devices,
            final(self).selected_midi_idx == old(self).selected_midi_idx,
            final(self).selected_audio_idx == old(self).selected_audio_idx,
            Self::same_session(old(self), final(self)),
            Self::same_flags(old(self), final(self)),
            final(self).logs == old(self).logs,
    {
        if let Some(idx) = self.selected_midi_idx {
            if idx < self.midi_devices.len() {
                self.config.midi_out = self.midi_devices[idx].name.clone();
            }
        }
        if let Some(idx) = self.selected_audio_idx {
            if idx < self.audio_devices.len() {
                self.config.audio_in = self.audio_devices[idx].name.clone();
            }
        }
    }

    /// A refresh can be asked for unless a session or a refresh runs.
    pub fn refresh_enabled(&self) -> (r: bool)
        ensures
            r == (self.engine_status != EngineStatus::Running && self.device_scan_state
                != DeviceScanState::Scanning),
    {
        self.engine_status != EngineStatus::Running && !self.is_device_scan_running()
    }

    /// The line under the device lists: why refreshing is unavailable, that
    /// a refresh runs, or why the last one failed.
    pub fn device_status_line(&self) -> (r: Option<String>)
        ensures
            self.engine_status == EngineStatus::Running ==> (r matches Some(t) && t@
                == "Refresh unavailable while running"@),
            self.engine_status != EngineStatus::Running && self.device_scan_state
                == DeviceScanState::Scanning ==> (r matches Some(t) && t@ == "Scanning devices..."@),
            self.engine_status != EngineStatus::Running ==> match self.device_scan_state {
                DeviceScanState::Failed(e) => r matches Some(t) && t@ == "Device refresh failed: "@
                    + e@,
                DeviceScanState::Idle => r is None,
                DeviceScanState::Scanning => true,
            },
    {
        if self.engine_status == EngineStatus::Running {
            return Some("Refresh unavailable while running".to_owned());
        }
        match &self.device_scan_state {
            DeviceScanState::Scanning => Some("Scanning devices...".to_owned()),
            DeviceScanState::Failed(e) => Some(concat_str("Device refresh failed: ", e.as_str())),
            DeviceScanState::Idle => None,
        }
    }
}

/// `<name> (<rate> Hz, <channels> ch)`, how an audio input is offered.
pub open spec fn audio_device_text(d: crate::types::AudioDeviceInfo) -> Seq<char> {
    d.name@ + " ("@ + dec_digits(d.sample_rate as nat) + " Hz, "@ + dec_digits(d.channels as nat)
        + " ch)"@
}

pub fn audio_device_label(d: &crate::types::AudioDeviceInfo) -> (r: String)
    ensures
        r@ == audio_device_text(*d),
{
    let mut out = chars_of(d.name.as_str());
    let a = chars_of(" (");
    push_all(&mut out, &a);
    push_decimal(&mut out, d.sample_rate as u64, 0);
    let b = chars_of(" Hz, ");
    push_all(&mut out, &b);
    push_decimal(&mut out, d.channels as u64, 0);
    let c = chars_of(" ch)");
    push_all(&mut out, &c);
    string_from_chars(&out)
}

// ---------------------------------------------------------------------------
// Session and progress panels
// ---------------------------------------------------------------------------

impl<F> AppState<F> {
    /// The preset's name was edited: it also becomes the file prefix.
    pub fn rename_preset(&mut self, name: String)
        ensures
            final(self).preset_name@ == name@,
            final(self).config.prefix@ == name@,
            final(self).config == (crate::types::RunConfig {
                prefix: final(self).config.prefix,
                ..old(self).config
            }),
            final(self).midi_devices == old(self).midi_devices,
            final(self).audio_devices == old(self).audio_devices,
            final(self).selected_midi_idx == old(self).selected_midi_idx,
            final(self).selected_audio_idx == old(self).selected_audio_idx,
            final(self).engine_status == old(self).engine_status,
            final(self).progress == old(self).progress,
            Self::same_flags(old(self), final(self)),
            final(self).logs == old(self).logs,
    {
        self.config.prefix = name.clone();
        self.preset_name = name;
    }

    /// `File name prefix: <preset name>`, or `Untitled` for a blank name.
    pub fn prefix_preview(&self) -> (r: String)
        ensures
            r@ == "File name prefix: "@ + (if trim(self.preset_name@).len() == 0 {
                "Untitled"@
            } else {
                self.preset_name@
            }),
    {
        if is_blank(self.preset_name.as_str()) {
            concat_str("File name prefix: ", "Untitled")
        } else {
            concat_str("File name prefix: ", self.preset_name.as_str())
        }
    }
}

/// The progress panel's lines: position, current sample, and the counts
/// of completed, skipped and failed samples.
pub open spec fn progress_text(p: crate::state::ProgressState) -> Seq<Seq<char>> {
    seq![
        dec_digits(p.current_index as nat) + "/"@ + dec_digits(p.total_samples as nat) + " samples"@,
        "Current: Note "@ + dec_digits(p.current_note as nat) + " | Vel "@ + dec_digits(
            p.current_velocity as nat,
        ) + " | RR "@ + dec_digits(p.current_rr as nat),
        "✅ Completed: "@ + dec_digits(p.samples_completed as nat),
        "⏭ Skipped: "@ + dec_digits(p.samples_skipped as nat),
        "❌ Failed: "@ + dec_digits(p.samples_failed as nat),
    ]
}

fn number_line(head: &str, n: u64) -> (r: String)
    ensures
        r@ == head@ + dec_digits(n as nat),
{
    let mut out = chars_of(head);
    push_decimal(&mut out, n, 0);
    string_from_chars(&out)
}

pub fn progress_lines(p: &crate::state::ProgressState) -> (r: Vec<String>)
    ensures
        texts(r@) == progress_text(*p),
{
    let mut lines: Vec<String> = Vec::new();
    let mut first: Vec<char> = Vec::new();
    push_decimal(&mut first, p.current_index as u64, 0);
    let a = chars_of("/");
    push_all(&mut first, &a);
    push_decimal(&mut first, p.total_samples as u64, 0);
    let b = chars_of(" samples");
    push_all(&mut first, &b);
    lines.push(string_from_chars(&first));
    let mut second = chars_of("Current: Note ");
    push_decimal(&mut second, p.current_note as u64, 0);
    let c = chars_of(" | Vel ");
    push_all(&mut second, &c);
    push_decimal(&mut second, p.current_velocity as u64, 0);
    let d = chars_of(" | RR ");
    push_all(&mut second, &d);
    push_decimal(&mut second, p.current_rr as u64, 0);
    lines.push(string_from_chars(&second));
    lines.push(number_line("✅ Completed: ", p.samples_completed as u64));
    lines.push(number_line("⏭ Skipped: ", p.samples_skipped as u64));
    lines.push(number_line("❌ Failed: ", p.samples_failed as u64));
    assert(texts(lines@) =~= progress_text(*p));
    lines
}

} // verus!
