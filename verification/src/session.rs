//! The decisions of a sampling session, apart from the device work that
//! carries them out: which job comes next and when the session stops, when
//! a job's capture sends its note on and note off and when it gives up, how
//! large the capture buffers are, and which export steps a format needs.

use vstd::prelude::*;
use crate::engine::{build_file_path, sample_path_components, texts};
use crate::types::{OutputFormat, OutputOrganization, SampleJob};

verus! {

// ---------------------------------------------------------------------------
// Output format consequences
// ---------------------------------------------------------------------------

/// Whether a format needs MP3 conversion (`Mp3` and `Both`).
pub open spec fn format_needs_mp3(format: OutputFormat) -> bool {
    format == OutputFormat::Mp3 || format == OutputFormat::Both
}

/// Whether samples in this format are converted to MP3.
pub fn needs_mp3(format: OutputFormat) -> (r: bool)
    ensures
        r == format_needs_mp3(format),
{
    format == OutputFormat::Mp3 || format == OutputFormat::Both
}

/// What a session does about MP3 support before it starts.
#[derive(Debug, Clone, Copy, PartialEq, Eq, Structural)]
pub enum Mp3Gate {
    /// Go on without a warning.
    Proceed,
    /// Warn that ffmpeg is missing, then go on (WAV files are still written).
    WarnAndProceed,
    /// Warn that ffmpeg is missing, then stop: MP3 alone was asked for.
    WarnAndFail,
}

/// The session's decision on MP3 support. `ffmpeg_available` is only
/// consulted when the format needs MP3.
pub fn mp3_gate(format: OutputFormat, ffmpeg_available: bool) -> (r: Mp3Gate)
    ensures
        !format_needs_mp3(format) ==> r == Mp3Gate::Proceed,
        format_needs_mp3(format) && ffmpeg_available ==> r == Mp3Gate::Proceed,
        format_needs_mp3(format) && !ffmpeg_available ==> r == (if format == OutputFormat::Mp3 {
            Mp3Gate::WarnAndFail
        } else {
            Mp3Gate::WarnAndProceed
        }),
{
    if needs_mp3(format) && !ffmpeg_available {
        if format == OutputFormat::Mp3 {
            Mp3Gate::WarnAndFail
        } else {
            Mp3Gate::WarnAndProceed
        }
    } else {
        Mp3Gate::Proceed
    }
}

/// The steps that export a recorded sample.
#[derive(Debug, Clone, Copy, PartialEq, Eq, Structural)]
pub struct ExportPlan {
    /// Convert the written WAV file to MP3.
    pub convert_mp3: bool,
    /// Remove the WAV file after converting.
    pub remove_wav: bool,
}

/// A WAV file is always written first; it is converted when the format
/// needs MP3 and removed again when MP3 alone was asked for.
pub fn export_plan(format: OutputFormat) -> (r: ExportPlan)
    ensures
        r.convert_mp3 == format_needs_mp3(format),
        r.remove_wav == (format == OutputFormat::Mp3),
        r.remove_wav ==> r.convert_mp3,
{
    let convert = needs_mp3(format);
    ExportPlan { convert_mp3: convert, remove_wav: convert && format == OutputFormat::Mp3 }
}

// ---------------------------------------------------------------------------
// Buffer sizes
// ---------------------------------------------------------------------------

/// Interleaved samples in `ms` milliseconds of audio, rounded down.
pub open spec fn samples_for(sample_rate: int, channels: int, ms: int) -> int {
    sample_rate * channels * ms / 1000
}

/// The capture buffer of a session holds twice the samples of preroll, hold
/// and tail plus one second.
pub open spec fn ring_capacity_value(
    sample_rate: int,
    channels: int,
    preroll_ms: int,
    hold_ms: int,
    tail_ms: int,
) -> int {
    2 * samples_for(sample_rate, channels, preroll_ms + hold_ms + tail_ms + 1000)
}

/// The session's buffer size is computed without overflow: the durations
/// sum in `u32`, the sample count in `usize`.
pub open spec fn ring_capacity_fits(
    sample_rate: int,
    channels: int,
    preroll_ms: int,
    hold_ms: int,
    tail_ms: int,
) -> bool {
    &&& preroll_ms + hold_ms + tail_ms + 1000 <= u32::MAX
    &&& sample_rate * channels * (preroll_ms + hold_ms + tail_ms + 1000) <= usize::MAX
    &&& ring_capacity_value(sample_rate, channels, preroll_ms, hold_ms, tail_ms) <= usize::MAX
}

/// Size of a session's capture buffer, in samples.
pub fn session_ring_capacity(
    sample_rate: u32,
    channels: u16,
    preroll_ms: u32,
    hold_ms: u32,
    tail_ms: u32,
) -> (r: usize)
    requires
        ring_capacity_fits(
            sample_rate as int,
            channels as int,
            preroll_ms as int,
            hold_ms as int,
            tail_ms as int,
        ),
    ensures
        r == ring_capacity_value(
            sample_rate as int,
            channels as int,
            preroll_ms as int,
            hold_ms as int,
            tail_ms as int,
        ),
{
    let max_duration_ms = preroll_ms + hold_ms + tail_ms + 1000;
    let sr = sample_rate as usize;
    let ch = channels as usize;
    let m = max_duration_ms as usize;
    proof {
        lemma_product_parts_fit(sr as int, ch as int, m as int);
    }
    let ring_size = sr * ch * m / 1000;
    ring_size * 2
}

/// The samples kept after the last loud frame when a session trims a
/// take: 100 ms of interleaved audio.
pub fn trim_min_tail_samples(sample_rate: u32, channels: u16) -> (r: usize)
    requires
        sample_rate * channels * 100 <= usize::MAX,
    ensures
        r == samples_for(sample_rate as int, channels as int, 100),
{
    let sr = sample_rate as usize;
    let ch = channels as usize;
    proof {
        lemma_product_parts_fit(sr as int, ch as int, 100);
    }
    sr * ch * 100 / 1000
}

/// The frames a session fades in and out: 5 ms at the configured rate.
pub fn fade_length_samples(sample_rate: u32) -> (r: usize)
    requires
        sample_rate * 5 <= usize::MAX,
    ensures
        r == sample_rate * 5 / 1000,
{
    let sr = sample_rate as usize;
    sr * 5 / 1000
}

proof fn lemma_product_parts_fit(a: int, b: int, c: int)
    requires
        0 <= a,
        0 <= b,
        1 <= c,
        a * b * c <= usize::MAX,
    ensures
        a * b <= usize::MAX,
{
    assert(a * b <= a * b * c) by (nonlinear_arith)
        requires
            0 <= a,
            0 <= b,
            1 <= c,
    ;
}

// ---------------------------------------------------------------------------
// The job loop
// ---------------------------------------------------------------------------

#[derive(Debug, Clone, Copy, PartialEq, Eq, Structural)]
pub enum RunStage {
    /// The next job may begin.
    NextJob,
    /// The current job waits for whether its file already exists.
    ExistenceCheck,
    /// The current job is being captured and exported.
    Capture,
    /// No more jobs are run.
    Finished,
}

/// What the session does at the top of its loop.
#[derive(Debug, Clone, Copy, PartialEq, Eq, Structural)]
pub enum LoopStep {
    /// Record job number `index` (from 1) of `total`; when `check_existing`
    /// is set, first report whether its WAV file exists.
    Sample { index: usize, total: usize, job: SampleJob, check_existing: bool },
    /// A cancel request stopped the session before this job.
    Cancelled,
    /// Every job has been run.
    AllDone,
}

/// How the capture and export of a job went.
#[derive(Debug, Clone, Copy, PartialEq, Eq, Structural)]
pub enum SampleOutcome {
    /// Captured and exported.
    Recorded,
    /// Captured, but exporting failed.
    ExportFailed,
    /// Capturing failed; `cancelled` tells whether a cancel request was
    /// pending when it did.
    CaptureFailed { cancelled: bool },
}

/// What the session reports about a job that ends.
#[derive(Debug, Clone, Copy, PartialEq, Eq, Structural)]
pub enum SampleReport {
    Completed { index: usize, total: usize },
    Skipped { index: usize, total: usize },
    Failed { index: usize, total: usize },
    Cancelled,
}

/// The state of a session's job loop.
pub struct SessionRun {
    jobs: Vec<SampleJob>,
    resume: bool,
    next: usize,
    recorded: usize,
    stage: RunStage,
}

pub struct SessionRunView {
    pub jobs: Seq<SampleJob>,
    pub resume: bool,
    /// Jobs begun and finished so far; the current job when one runs.
    pub next: nat,
    /// Jobs recorded so far.
    pub recorded: nat,
    pub stage: RunStage,
}

impl View for SessionRun {
    type V = SessionRunView;

    closed spec fn view(&self) -> SessionRunView {
        SessionRunView {
            jobs: self.jobs@,
            resume: self.resume,
            next: self.next as nat,
            recorded: self.recorded as nat,
            stage: self.stage,
        }
    }
}

impl SessionRunView {
    /// At most every finished job has been recorded, a running job is one
    /// of the list, and the existence check only happens when resuming.
    pub open spec fn wf(self) -> bool {
        &&& self.next <= self.jobs.len()
        &&& self.recorded <= self.next
        &&& (self.stage == RunStage::ExistenceCheck || self.stage == RunStage::Capture) ==> self.next
            < self.jobs.len()
        &&& self.stage == RunStage::ExistenceCheck ==> self.resume
    }
}

/// What `begin_next` does to a session, and the step it gives.
pub open spec fn begin_next_spec(v: SessionRunView, cancelled: bool) -> (SessionRunView, LoopStep) {
    if v.next >= v.jobs.len() {
        (SessionRunView { stage: RunStage::Finished, ..v }, LoopStep::AllDone)
    } else if cancelled {
        (SessionRunView { stage: RunStage::Finished, ..v }, LoopStep::Cancelled)
    } else {
        (
            SessionRunView {
                stage: if v.resume {
                    RunStage::ExistenceCheck
                } else {
                    RunStage::Capture
                },
                ..v
            },
            LoopStep::Sample {
                index: (v.next + 1) as usize,
                total: v.jobs.len() as usize,
                job: v.jobs[v.next as int],
                check_existing: v.resume,
            },
        )
    }
}

/// What `existing_file` does to a session, and the report it gives.
pub open spec fn existing_file_spec(v: SessionRunView, exists: bool) -> (
    SessionRunView,
    Option<SampleReport>,
) {
    if exists {
        (
            SessionRunView { next: v.next + 1, stage: RunStage::NextJob, ..v },
            Some(SampleReport::Skipped { index: (v.next + 1) as usize, total: v.jobs.len() as usize }),
        )
    } else {
        (SessionRunView { stage: RunStage::Capture, ..v }, None)
    }
}

/// What `finish_sample` does to a session, and the report it gives.
pub open spec fn finish_sample_spec(v: SessionRunView, outcome: SampleOutcome) -> (
    SessionRunView,
    SampleReport,
) {
    let index = (v.next + 1) as usize;
    let total = v.jobs.len() as usize;
    match outcome {
        SampleOutcome::Recorded => (
            SessionRunView {
                recorded: v.recorded + 1,
                next: v.next + 1,
                stage: RunStage::NextJob,
                ..v
            },
            SampleReport::Completed { index, total },
        ),
        SampleOutcome::CaptureFailed { cancelled: true } => (
            SessionRunView { stage: RunStage::Finished, ..v },
            SampleReport::Cancelled,
        ),
        _ => (
            SessionRunView { next: v.next + 1, stage: RunStage::NextJob, ..v },
            SampleReport::Failed { index, total },
        ),
    }
}

impl SessionRun {
    /// A session about to run `jobs` in order; with `resume`, jobs whose
    /// file exists are skipped.
    pub fn new(jobs: Vec<SampleJob>, resume: bool) -> (r: SessionRun)
        ensures
            r@.wf(),
            r@.jobs == jobs@,
            r@.resume == resume,
            r@.next == 0,
            r@.recorded == 0,
            r@.stage == RunStage::NextJob,
    {
        SessionRun { jobs, resume, next: 0, recorded: 0, stage: RunStage::NextJob }
    }

    pub fn total(&self) -> (r: usize)
        ensures
            r == self@.jobs.len(),
    {
        self.jobs.len()
    }

    pub fn samples_recorded(&self) -> (r: usize)
        ensures
            r == self@.recorded,
    {
        self.recorded
    }

    pub fn stage(&self) -> (r: RunStage)
        ensures
            r == self@.stage,
    {
        self.stage
    }

    /// The top of the loop: once every job has run the session is done;
    /// otherwise a pending cancel stops it, or the next job begins.
    pub fn begin_next(&mut self, cancelled: bool) -> (step: LoopStep)
        requires
            old(self)@.wf(),
            old(self)@.stage == RunStage::NextJob,
        ensures
            (final(self)@, step) == begin_next_spec(old(self)@, cancelled),
            final(self)@.wf(),
            final(self)@.jobs == old(self)@.jobs,
            final(self)@.resume == old(self)@.resume,
            final(self)@.next == old(self)@.next,
            final(self)@.recorded == old(self)@.recorded,
            old(self)@.next == old(self)@.jobs.len() ==> step == LoopStep::AllDone
                && final(self)@.stage == RunStage::Finished,
            old(self)@.next < old(self)@.jobs.len() && cancelled ==> step == LoopStep::Cancelled
                && final(self)@.stage == RunStage::Finished,
            old(self)@.next < old(self)@.jobs.len() && !cancelled ==> step == (LoopStep::Sample {
                index: (old(self)@.next + 1) as usize,
                total: old(self)@.jobs.len() as usize,
                job: old(self)@.jobs[old(self)@.next as int],
                check_existing: old(self)@.resume,
            }) && final(self)@.stage == (if old(self)@.resume {
                RunStage::ExistenceCheck
            } else {
                RunStage::Capture
            }),
    {
        if self.next == self.jobs.len() {
            self.stage = RunStage::Finished;
            return LoopStep::AllDone;
        }
        if cancelled {
            self.stage = RunStage::Finished;
            return LoopStep::Cancelled;
        }
        self.stage = if self.resume {
            RunStage::ExistenceCheck
        } else {
            RunStage::Capture
        };
        LoopStep::Sample {
            index: self.next + 1,
            total: self.jobs.len(),
            job: self.jobs[self.next],
            check_existing: self.resume,
        }
    }

    /// The path components, below the session's output directory, of the
    /// current job's WAV file: the file whose existence decides a skip when
    /// resuming.
    pub fn current_wav_path(&self, prefix: &str, organization: OutputOrganization) -> (r: Vec<
        String,
    >)
        requires
            self@.wf(),
            self@.stage == RunStage::ExistenceCheck || self@.stage == RunStage::Capture,
        ensures
            texts(r@) == sample_path_components(
                prefix@,
                organization,
                self@.jobs[self@.next as int],
                "wav"@,
            ),
    {
        let job = self.jobs[self.next];
        build_file_path(prefix, organization, &job, "wav")
    }

    /// When resuming: a job whose file exists is skipped, otherwise it is
    /// captured.
    pub fn existing_file(&mut self, exists: bool) -> (report: Option<SampleReport>)
        requires
            old(self)@.wf(),
            old(self)@.stage == RunStage::ExistenceCheck,
        ensures
            (final(self)@, report) == existing_file_spec(old(self)@, exists),
            final(self)@.wf(),
            final(self)@.jobs == old(self)@.jobs,
            final(self)@.resume == old(self)@.resume,
            final(self)@.recorded == old(self)@.recorded,
            exists ==> report == Some(
                SampleReport::Skipped {
                    index: (old(self)@.next + 1) as usize,
                    total: old(self)@.jobs.len() as usize,
                },
            ) && final(self)@.next == old(self)@.next + 1 && final(self)@.stage
                == RunStage::NextJob,
            !exists ==> report is None && final(self)@.next == old(self)@.next && final(self)@.stage
                == RunStage::Capture,
    {
        assert(old(self)@.next < old(self)@.jobs.len());
        assert(self.next < self.jobs.len());
        if exists {
            let index = self.next + 1;
            self.next = index;
            self.stage = RunStage::NextJob;
            Some(SampleReport::Skipped { index, total: self.jobs.len() })
        } else {
            self.stage = RunStage::Capture;
            None
        }
    }

    /// The end of a job: a recording counts and is reported completed; a
    /// failed export or capture is reported failed, except that a capture
    /// that failed while a cancel was pending stops the session.
    pub fn finish_sample(&mut self, outcome: SampleOutcome) -> (report: SampleReport)
        requires
            old(self)@.wf(),
            old(self)@.stage == RunStage::Capture,
        ensures
            (final(self)@, report) == finish_sample_spec(old(self)@, outcome),
            final(self)@.wf(),
            final(self)@.jobs == old(self)@.jobs,
            final(self)@.resume == old(self)@.resume,
            outcome == SampleOutcome::Recorded ==> report == (SampleReport::Completed {
                index: (old(self)@.next + 1) as usize,
                total: old(self)@.jobs.len() as usize,
            }) && final(self)@.recorded == old(self)@.recorded + 1 && final(self)@.next == old(
                self,
            )@.next + 1 && final(self)@.stage == RunStage::NextJob,
            (outcome == SampleOutcome::ExportFailed || outcome == (SampleOutcome::CaptureFailed {
                cancelled: false,
            })) ==> report == (SampleReport::Failed {
                index: (old(self)@.next + 1) as usize,
                total: old(self)@.jobs.len() as usize,
            }) && final(self)@.recorded == old(self)@.recorded && final(self)@.next == old(
                self,
            )@.next + 1 && final(self)@.stage == RunStage::NextJob,
            outcome == (SampleOutcome::CaptureFailed { cancelled: true }) ==> report
                == SampleReport::Cancelled && final(self)@.recorded == old(self)@.recorded
                && final(self)@.next == old(self)@.next && final(self)@.stage == RunStage::Finished,
    {
        assert(old(self)@.next < old(self)@.jobs.len());
        assert(self.next < self.jobs.len());
        let index = self.next + 1;
        let total = self.jobs.len();
        match outcome {
            SampleOutcome::Recorded => {
                self.recorded = self.recorded + 1;
                self.next = index;
                self.stage = RunStage::NextJob;
                SampleReport::Completed { index, total }
            },
            SampleOutcome::ExportFailed | SampleOutcome::CaptureFailed { cancelled: false } => {
                self.next = index;
                self.stage = RunStage::NextJob;
                SampleReport::Failed { index, total }
            },
            SampleOutcome::CaptureFailed { cancelled: true } => {
                self.stage = RunStage::Finished;
                SampleReport::Cancelled
            },
        }
    }
}


/// One turn of the job loop from `NextJob`: `begin_next`, then for a job
/// the existence check when resuming, then `finish_sample` unless the job
/// was skipped. `input` is what the outside world answers at each point:
/// (a cancel request is pending, the job's WAV file exists, how capture and
/// export went).
pub open spec fn session_round(v: SessionRunView, input: (bool, bool, SampleOutcome)) -> (
    SessionRunView,
    (LoopStep, Option<SampleReport>),
) {
    let (v1, step) = begin_next_spec(v, input.0);
    if step is Sample {
        if v1.stage == RunStage::ExistenceCheck {
            let (v2, skipped) = existing_file_spec(v1, input.1);
            if skipped is Some {
                (v2, (step, skipped))
            } else {
                let (v3, report) = finish_sample_spec(v2, input.2);
                (v3, (step, Some(report)))
            }
        } else {
            let (v3, report) = finish_sample_spec(v1, input.2);
            (v3, (step, Some(report)))
        }
    } else {
        (v1, (step, None))
    }
}

/// The turns of the job loop for the answers `inputs`, until the answers
/// run out or the session stops: the session left, and each turn's step
/// and report.
pub open spec fn session_trace(v: SessionRunView, inputs: Seq<(bool, bool, SampleOutcome)>) -> (
    SessionRunView,
    Seq<(LoopStep, Option<SampleReport>)>,
)
    decreases inputs.len(),
{
    if inputs.len() == 0 || v.stage != RunStage::NextJob {
        (v, seq![])
    } else {
        let (v1, turn) = session_round(v, inputs[0]);
        let (w, rest) = session_trace(v1, inputs.drop_first());
        (w, seq![turn] + rest)
    }
}

/// The report that ends job number `index` of `total`, given the answers
/// for its turn.
pub open spec fn expected_report(
    index: nat,
    total: nat,
    resume: bool,
    input: (bool, bool, SampleOutcome),
) -> SampleReport {
    if resume && input.1 {
        SampleReport::Skipped { index: index as usize, total: total as usize }
    } else {
        match input.2 {
            SampleOutcome::Recorded => SampleReport::Completed {
                index: index as usize,
                total: total as usize,
            },
            SampleOutcome::CaptureFailed { cancelled: true } => SampleReport::Cancelled,
            _ => SampleReport::Failed { index: index as usize, total: total as usize },
        }
    }
}

/// How many turns reported a completed recording.
pub open spec fn completed_count(t: Seq<(LoopStep, Option<SampleReport>)>) -> nat
    decreases t.len(),
{
    if t.len() == 0 {
        0
    } else {
        (if t[0].1 matches Some(SampleReport::Completed { .. }) {
            1nat
        } else {
            0nat
        }) + completed_count(t.drop_first())
    }
}

/// Whether a turn stops the session.
pub open spec fn stops(turn: (LoopStep, Option<SampleReport>)) -> bool {
    !(turn.0 is Sample) || turn.1 == Some(SampleReport::Cancelled)
}

/// The order of a session's turns: the `i`-th turn (from 0) begins job
/// number `next + i + 1`, with its total and job, unless every job has run
/// (then it is the last turn and says so) or a cancel request is pending
/// (then it is the last turn and says so). A job that begins ends with one
/// report: skipped exactly when resuming finds its file (nothing is
/// captured then), otherwise completed, failed, or cancelled when the
/// capture failed under a cancel request, which stops the session. Nothing
/// follows a stop, the turns go on until the answers run out or the
/// session stops, and each completed report counts one recording.
pub proof fn lemma_session_order(v: SessionRunView, inputs: Seq<(bool, bool, SampleOutcome)>)
    requires
        v.wf(),
        v.stage == RunStage::NextJob,
    ensures
        ({
            let (w, t) = session_trace(v, inputs);
            &&& t.len() <= inputs.len()
            &&& forall|i: int|
                0 <= i < t.len() ==> {
                    let turn = #[trigger] t[i];
                    if v.next + i >= v.jobs.len() {
                        turn == (LoopStep::AllDone, None::<SampleReport>)
                    } else if inputs[i].0 {
                        turn == (LoopStep::Cancelled, None::<SampleReport>)
                    } else {
                        turn == (
                            LoopStep::Sample {
                                index: (v.next + i + 1) as usize,
                                total: v.jobs.len() as usize,
                                job: v.jobs[v.next + i],
                                check_existing: v.resume,
                            },
                            Some(expected_report((v.next + i + 1) as nat, v.jobs.len(), v.resume, inputs[i])),
                        )
                    }
                }
            &&& forall|i: int| 0 <= i < t.len() - 1 ==> !stops(#[trigger] t[i])
            &&& t.len() == inputs.len() || stops(t[t.len() - 1])
            &&& w.stage == RunStage::Finished <==> (t.len() > 0 && stops(t[t.len() - 1]))
            &&& w.stage != RunStage::Finished ==> w.stage == RunStage::NextJob && w.next == v.next + t.len()
            &&& w.recorded == v.recorded + completed_count(t)
            &&& w.jobs == v.jobs && w.resume == v.resume && w.wf()
        }),
    decreases inputs.len(),
{
    if inputs.len() == 0 {
        return;
    }
    let (v1, turn) = session_round(v, inputs[0]);
    let (w, t) = session_trace(v, inputs);
    let rest_inputs = inputs.drop_first();
    let (w1, rest) = session_trace(v1, rest_inputs);
    assert(t == seq![turn] + rest);
    if stops(turn) {
        assert(v1.stage == RunStage::Finished);
        assert(rest.len() == 0);
        assert(t =~= seq![turn]);
        assert(completed_count(t) == 0) by {
            assert(t.drop_first() =~= rest);
        }
    } else {
        assert(v1.stage == RunStage::NextJob);
        assert(v1.next == v.next + 1);
        lemma_session_order(v1, rest_inputs);
        assert(t.drop_first() =~= rest);
        assert forall|i: int| 1 <= i < t.len() implies #[trigger] t[i] == rest[i - 1] && inputs[i]
            == rest_inputs[i - 1] by {}
        assert forall|i: int| 0 <= i < t.len() - 1 implies !stops(#[trigger] t[i]) by {
            if i > 0 {
                assert(t[i] == rest[i - 1]);
            }
        }
    }
}

/// A session in which no cancel request is ever pending runs every job in
/// order and then reports that all are done: turn `i` begins job number
/// `i + 1` of the total, no turn reports a cancellation, and the turn
/// after the last job is `AllDone`.
pub proof fn lemma_uncancelled_session_runs_every_job(
    jobs: Seq<SampleJob>,
    resume: bool,
    inputs: Seq<(bool, bool, SampleOutcome)>,
)
    requires
        inputs.len() > jobs.len(),
        forall|i: int|
            0 <= i < inputs.len() ==> !(#[trigger] inputs[i]).0 && inputs[i].2
                != (SampleOutcome::CaptureFailed { cancelled: true }),
    ensures
        ({
            let v = SessionRunView { jobs, resume, next: 0, recorded: 0, stage: RunStage::NextJob };
            let (w, t) = session_trace(v, inputs);
            &&& t.len() == jobs.len() + 1
            &&& t[jobs.len() as int] == (LoopStep::AllDone, None::<SampleReport>)
            &&& w.stage == RunStage::Finished
            &&& forall|i: int|
                0 <= i < jobs.len() ==> (#[trigger] t[i]).0 == (LoopStep::Sample {
                    index: (i + 1) as usize,
                    total: jobs.len() as usize,
                    job: jobs[i],
                    check_existing: resume,
                }) && t[i].1 != Some(SampleReport::Cancelled)
        }),
{
    let v = SessionRunView { jobs, resume, next: 0, recorded: 0, stage: RunStage::NextJob };
    lemma_session_order(v, inputs);
    let (w, t) = session_trace(v, inputs);
    assert forall|i: int| 0 <= i < t.len() && i < jobs.len() implies !stops(#[trigger] t[i]) by {
        assert(!inputs[i].0);
        assert(expected_report((i + 1) as nat, jobs.len(), resume, inputs[i]) != SampleReport::Cancelled);
    }
    if t.len() <= jobs.len() {
        assert(t.len() < inputs.len());
        assert(t.len() > 0 ==> !stops(t[t.len() - 1]));
        assert(false);
    }
    assert(t[jobs.len() as int] == (LoopStep::AllDone, None::<SampleReport>));
}

// ---------------------------------------------------------------------------
// Capturing one job
// ---------------------------------------------------------------------------

#[derive(Debug, Clone, Copy, PartialEq, Eq, Structural)]
pub enum CapturePhase {
    /// Listening before the note is played.
    Preroll,
    /// The note is held.
    Hold,
    /// The note has been released; its tail is recorded.
    Tail,
    /// The capture is complete.
    Done,
    /// The capture was cancelled.
    Aborted,
}

/// What to do at one tick of a capture.
#[derive(Debug, Clone, Copy, PartialEq, Eq, Structural)]
pub enum CaptureStep {
    /// Keep collecting audio and wait.
    Listen,
    /// Send the job's note on, then restart the phase clock.
    SendNoteOn,
    /// Send the job's note off, then restart the phase clock.
    SendNoteOff,
    /// Give up because of a cancel request, first silencing what sounds.
    Abort { note_off: bool, all_notes_off: bool },
    /// Take the last `samples` samples from the buffer.
    Collect { samples: usize },
}

/// The capture of one job: preroll, hold and tail of given lengths.
pub struct CaptureRun {
    phase: CapturePhase,
    preroll_ms: u32,
    hold_ms: u32,
    tail_ms: u32,
    total_samples: usize,
}

pub struct CaptureRunView {
    pub phase: CapturePhase,
    pub preroll_ms: nat,
    pub hold_ms: nat,
    pub tail_ms: nat,
    pub total_samples: nat,
}

impl View for CaptureRun {
    type V = CaptureRunView;

    closed spec fn view(&self) -> CaptureRunView {
        CaptureRunView {
            phase: self.phase,
            preroll_ms: self.preroll_ms as nat,
            hold_ms: self.hold_ms as nat,
            tail_ms: self.tail_ms as nat,
            total_samples: self.total_samples as nat,
        }
    }
}

/// Samples in the preroll, hold and tail, each rounded down separately.
pub open spec fn capture_total(
    sample_rate: int,
    channels: int,
    preroll_ms: int,
    hold_ms: int,
    tail_ms: int,
) -> int {
    samples_for(sample_rate, channels, preroll_ms) + samples_for(sample_rate, channels, hold_ms)
        + samples_for(sample_rate, channels, tail_ms)
}

/// The capture's sample counts are computed in `usize` without overflow.
pub open spec fn capture_counts_fit(
    sample_rate: int,
    channels: int,
    preroll_ms: int,
    hold_ms: int,
    tail_ms: int,
) -> bool {
    &&& sample_rate * channels * preroll_ms <= usize::MAX
    &&& sample_rate * channels * hold_ms <= usize::MAX
    &&& sample_rate * channels * tail_ms <= usize::MAX
    &&& sample_rate * channels <= usize::MAX
    &&& capture_total(sample_rate, channels, preroll_ms, hold_ms, tail_ms) <= usize::MAX
}

fn samples_in(sr: usize, ch: usize, ms: usize) -> (r: usize)
    requires
        sr * ch <= usize::MAX,
        sr * ch * ms <= usize::MAX,
    ensures
        r == samples_for(sr as int, ch as int, ms as int),
{
    sr * ch * ms / 1000
}

/// What `tick` does to a running capture, `elapsed_ms` into its phase,
/// and the step it gives.
pub open spec fn capture_next(v: CaptureRunView, elapsed_ms: nat, cancelled: bool) -> (
    CaptureRunView,
    CaptureStep,
) {
    let phase = v.phase;
    let length = if phase == CapturePhase::Preroll {
        v.preroll_ms
    } else if phase == CapturePhase::Hold {
        v.hold_ms
    } else {
        v.tail_ms
    };
    if elapsed_ms >= length {
        if phase == CapturePhase::Preroll {
            (CaptureRunView { phase: CapturePhase::Hold, ..v }, CaptureStep::SendNoteOn)
        } else if phase == CapturePhase::Hold {
            (CaptureRunView { phase: CapturePhase::Tail, ..v }, CaptureStep::SendNoteOff)
        } else {
            (
                CaptureRunView { phase: CapturePhase::Done, ..v },
                CaptureStep::Collect { samples: v.total_samples as usize },
            )
        }
    } else if cancelled {
        (
            CaptureRunView { phase: CapturePhase::Aborted, ..v },
            CaptureStep::Abort {
                note_off: phase == CapturePhase::Hold,
                all_notes_off: phase != CapturePhase::Preroll,
            },
        )
    } else {
        (v, CaptureStep::Listen)
    }
}

/// Whether a capture in `phase` is still running.
pub open spec fn capture_running(phase: CapturePhase) -> bool {
    phase == CapturePhase::Preroll || phase == CapturePhase::Hold || phase == CapturePhase::Tail
}

/// The ticks of a capture for the answers `ticks` (time into the phase, a
/// cancel request is pending), until they run out or the capture ends: the
/// capture left, and each tick's step.
pub open spec fn capture_trace(v: CaptureRunView, ticks: Seq<(nat, bool)>) -> (
    CaptureRunView,
    Seq<CaptureStep>,
)
    decreases ticks.len(),
{
    if ticks.len() == 0 || !capture_running(v.phase) {
        (v, seq![])
    } else {
        let (v1, step) = capture_next(v, ticks[0].0, ticks[0].1);
        let (w, rest) = capture_trace(v1, ticks.drop_first());
        (w, seq![step] + rest)
    }
}

/// The steps of a trace other than `Listen`: what the capture makes the
/// caller do.
pub open spec fn capture_actions(steps: Seq<CaptureStep>) -> Seq<CaptureStep>
    decreases steps.len(),
{
    if steps.len() == 0 {
        seq![]
    } else if steps[0] == CaptureStep::Listen {
        capture_actions(steps.drop_first())
    } else {
        seq![steps[0]] + capture_actions(steps.drop_first())
    }
}

/// The actions of a whole capture: note on, note off, then take the last
/// `total` samples.
pub open spec fn capture_script(total: nat) -> Seq<CaptureStep> {
    seq![
        CaptureStep::SendNoteOn,
        CaptureStep::SendNoteOff,
        CaptureStep::Collect { samples: total as usize },
    ]
}

/// Where a phase stands in the script.
pub open spec fn script_position(phase: CapturePhase) -> int {
    if phase == CapturePhase::Preroll {
        0
    } else if phase == CapturePhase::Hold {
        1
    } else {
        2
    }
}

/// The abort at script position `k`: what it silences is what sounds then.
pub open spec fn abort_at(k: int) -> CaptureStep {
    CaptureStep::Abort { note_off: k == 1, all_notes_off: k != 0 }
}

/// A capture makes its caller act in script order: from its phase on, a
/// capture that completes sends the note on once, the note off once, and
/// then takes the last `total_samples` samples; one that is cancelled
/// follows the script up to the point where it stops and then aborts,
/// sending a note off exactly when a note on was sent and no note off yet.
pub proof fn lemma_capture_follows_script(v: CaptureRunView, ticks: Seq<(nat, bool)>)
    requires
        capture_running(v.phase),
    ensures
        ({
            let (w, steps) = capture_trace(v, ticks);
            let acts = capture_actions(steps);
            let p = script_position(v.phase);
            &&& w.total_samples == v.total_samples
            &&& w.phase == CapturePhase::Done ==> acts == capture_script(v.total_samples).subrange(p, 3)
            &&& w.phase == CapturePhase::Aborted ==> acts.len() >= 1 && p + acts.len() - 1 < 3
                && acts.drop_last() == capture_script(v.total_samples).subrange(p, p + acts.len() - 1)
                && acts.last() == abort_at(p + acts.len() - 1)
            &&& capture_running(w.phase) ==> script_position(w.phase) == p + acts.len()
                && acts == capture_script(v.total_samples).subrange(p, p + acts.len())
        }),
    decreases ticks.len(),
{
    if ticks.len() == 0 {
        let (w, steps) = capture_trace(v, ticks);
        assert(steps.len() == 0);
        assert(capture_actions(steps) =~= seq![]);
        assert(capture_script(v.total_samples).subrange(script_position(v.phase), script_position(v.phase)) =~= seq![]);
        return;
    }
    let (v1, step) = capture_next(v, ticks[0].0, ticks[0].1);
    let (w, steps) = capture_trace(v, ticks);
    let (w1, rest) = capture_trace(v1, ticks.drop_first());
    assert(steps == seq![step] + rest);
    assert(steps.drop_first() =~= rest);
    let script = capture_script(v.total_samples);
    let p = script_position(v.phase);
    if capture_running(v1.phase) {
        lemma_capture_follows_script(v1, ticks.drop_first());
        let ra = capture_actions(rest);
        let p1 = script_position(v1.phase);
        if step == CaptureStep::Listen {
            assert(capture_actions(steps) == ra);
            assert(p1 == p);
        } else {
            assert(capture_actions(steps) == seq![step] + ra);
            assert(p1 == p + 1);
            assert(step == script[p]);
            if w1.phase == CapturePhase::Done {
                assert(script.subrange(p, 3) =~= seq![script[p]] + script.subrange(p1, 3));
            }
            if w1.phase == CapturePhase::Aborted {
                let acts = seq![step] + ra;
                assert(acts.drop_last() =~= seq![step] + ra.drop_last());
                assert(script.subrange(p, p + acts.len() - 1) =~= seq![script[p]] + script.subrange(
                    p1,
                    p1 + ra.len() - 1,
                ));
            }
            if capture_running(w1.phase) {
                assert(script.subrange(p, p + ra.len() + 1) =~= seq![script[p]] + script.subrange(
                    p1,
                    p1 + ra.len(),
                ));
            }
        }
    } else {
        assert(rest.len() == 0);
        assert(capture_actions(rest) =~= seq![]);
        assert(capture_actions(steps) =~= seq![step]);
        if v1.phase == CapturePhase::Done {
            assert(v.phase == CapturePhase::Tail);
            assert(script.subrange(p, 3) =~= seq![step]);
        } else {
            assert(script.subrange(p, p) =~= seq![]);
            assert(seq![step].drop_last() =~= seq![]);
        }
    }
}

/// From its preroll, a capture that completes sends exactly one note on,
/// then exactly one note off, then takes the last `total_samples` samples.
pub proof fn lemma_completed_capture_plays_one_note(v: CaptureRunView, ticks: Seq<(nat, bool)>)
    requires
        v.phase == CapturePhase::Preroll,
        capture_trace(v, ticks).0.phase == CapturePhase::Done,
    ensures
        capture_actions(capture_trace(v, ticks).1) == seq![
            CaptureStep::SendNoteOn,
            CaptureStep::SendNoteOff,
            CaptureStep::Collect { samples: v.total_samples as usize },
        ],
{
    lemma_capture_follows_script(v, ticks);
    assert(capture_script(v.total_samples).subrange(0, 3) =~= capture_script(v.total_samples));
}

impl CaptureRun {
    /// A capture that starts in its preroll.
    pub fn new(sample_rate: u32, channels: u16, preroll_ms: u32, hold_ms: u32, tail_ms: u32) -> (r:
        CaptureRun)
        requires
            capture_counts_fit(
                sample_rate as int,
                channels as int,
                preroll_ms as int,
                hold_ms as int,
                tail_ms as int,
            ),
        ensures
            r@.phase == CapturePhase::Preroll,
            r@.preroll_ms == preroll_ms,
            r@.hold_ms == hold_ms,
            r@.tail_ms == tail_ms,
            r@.total_samples == capture_total(
                sample_rate as int,
                channels as int,
                preroll_ms as int,
                hold_ms as int,
                tail_ms as int,
            ),
    {
        let sr = sample_rate as usize;
        let ch = channels as usize;
        let preroll = samples_in(sr, ch, preroll_ms as usize);
        let hold = samples_in(sr, ch, hold_ms as usize);
        let tail = samples_in(sr, ch, tail_ms as usize);
        CaptureRun {
            phase: CapturePhase::Preroll,
            preroll_ms,
            hold_ms,
            tail_ms,
            total_samples: preroll + hold + tail,
        }
    }

    pub fn phase(&self) -> (r: CapturePhase)
        ensures
            r == self@.phase,
    {
        self.phase
    }

    /// One tick, `elapsed_ms` into the current phase: a phase that has run
    /// its length moves on (note on after the preroll, note off after the
    /// hold, collect after the tail); otherwise a pending cancel aborts,
    /// sending a note off during the hold and all notes off during the hold
    /// or tail.
    pub fn tick(&mut self, elapsed_ms: u64, cancelled: bool) -> (step: CaptureStep)
        requires
            old(self)@.phase == CapturePhase::Preroll || old(self)@.phase == CapturePhase::Hold
                || old(self)@.phase == CapturePhase::Tail,
        ensures
            (final(self)@, step) == capture_next(old(self)@, elapsed_ms as nat, cancelled),
            final(self)@.preroll_ms == old(self)@.preroll_ms,
            final(self)@.hold_ms == old(self)@.hold_ms,
            final(self)@.tail_ms == old(self)@.tail_ms,
            final(self)@.total_samples == old(self)@.total_samples,
            ({
                let phase = old(self)@.phase;
                let length = if phase == CapturePhase::Preroll {
                    old(self)@.preroll_ms
                } else if phase == CapturePhase::Hold {
                    old(self)@.hold_ms
                } else {
                    old(self)@.tail_ms
                };
                if elapsed_ms >= length {
                    if phase == CapturePhase::Preroll {
                        step == CaptureStep::SendNoteOn && final(self)@.phase == CapturePhase::Hold
                    } else if phase == CapturePhase::Hold {
                        step == CaptureStep::SendNoteOff && final(self)@.phase == CapturePhase::Tail
                    } else {
                        step == (CaptureStep::Collect { samples: old(self)@.total_samples as usize })
                            && final(self)@.phase == CapturePhase::Done
                    }
                } else if cancelled {
                    step == (CaptureStep::Abort {
                        note_off: phase == CapturePhase::Hold,
                        all_notes_off: phase != CapturePhase::Preroll,
                    }) && final(self)@.phase == CapturePhase::Aborted
                } else {
                    step == CaptureStep::Listen && final(self)@.phase == phase
                }
            }),
    {
        let length: u32 = match self.phase {
            CapturePhase::Preroll => self.preroll_ms,
            CapturePhase::Hold => self.hold_ms,
            _ => self.tail_ms,
        };
        if elapsed_ms >= length as u64 {
            match self.phase {
                CapturePhase::Preroll => {
                    self.phase = CapturePhase::Hold;
                    CaptureStep::SendNoteOn
                },
                CapturePhase::Hold => {
                    self.phase = CapturePhase::Tail;
                    CaptureStep::SendNoteOff
                },
                _ => {
                    self.phase = CapturePhase::Done;
                    CaptureStep::Collect { samples: self.total_samples }
                },
            }
        } else if cancelled {
            let note_off = self.phase == CapturePhase::Hold;
            let all_notes_off = self.phase != CapturePhase::Preroll;
            self.phase = CapturePhase::Aborted;
            CaptureStep::Abort { note_off, all_notes_off }
        } else {
            CaptureStep::Listen
        }
    }
}

} // verus!
