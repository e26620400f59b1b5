//! The sampling engine's own logic: the cancel handle, the ordered list of
//! sample jobs, and where each sample is written.

use vstd::prelude::*;
use std::sync::atomic::{AtomicBool, Ordering};
use std::sync::Arc;
use crate::midi_note::{note_name, sharps_as_s, pitch_class_name};
use crate::text::{
    chars_of, dec_digits, fmt_int, push_all, push_decimal, push_signed, string_from_chars,
    zero_pad,
};
use crate::types::{OutputOrganization, SampleJob};
use crate::parse::upper_note_outcome;
use crate::text::{ascii_upper, ascii_upper_char, is_ascii_text, lemma_fmt_int_read, lemma_trim_of_trimmed, trim};

verus! {

/// Runs sampling sessions; a session stops early once `cancel` is called.
/// The cancel request is an atomic flag that `cancel` and `reset_cancel`
/// change through a shared reference, possibly from another thread; the
/// contracts here say nothing of its value, which Verus's model of std
/// atomics does not track.
pub struct AutosampleEngine {
    cancel_flag: Arc<AtomicBool>,
}

impl AutosampleEngine {
    /// An engine that has not been cancelled.
    pub fn new() -> Self {
        AutosampleEngine { cancel_flag: Arc::new(AtomicBool::new(false)) }
    }

    /// Asks a running session to stop.
    pub fn cancel(&self) {
        self.cancel_flag.store(true, Ordering::SeqCst);
    }

    /// Clears an earlier cancel request, as a session does when it starts.
    pub fn reset_cancel(&self) {
        self.cancel_flag.store(false, Ordering::SeqCst);
    }

    /// Whether a cancel request is pending.
    pub fn is_cancelled(&self) -> bool {
        self.cancel_flag.load(Ordering::SeqCst)
    }
}

// ---------------------------------------------------------------------------
// Jobs
// ---------------------------------------------------------------------------

/// The takes `1..=round_robin` of one note at one velocity.
pub open spec fn take_jobs(note: u8, velocity: u8, round_robin: nat) -> Seq<SampleJob> {
    Seq::new(round_robin, |k: int| SampleJob { note, velocity, rr_index: (k + 1) as u32 })
}

/// All takes of one note, velocity by velocity.
pub open spec fn note_jobs(note: u8, velocities: Seq<u8>, round_robin: nat) -> Seq<SampleJob>
    decreases velocities.len(),
{
    if velocities.len() == 0 {
        seq![]
    } else {
        note_jobs(note, velocities.drop_last(), round_robin) + take_jobs(
            note,
            velocities.last(),
            round_robin,
        )
    }
}

/// All jobs of a session: note by note, then velocity by velocity, then
/// take by take.
pub open spec fn session_jobs(notes: Seq<u8>, velocities: Seq<u8>, round_robin: nat) -> Seq<
    SampleJob,
>
    decreases notes.len(),
{
    if notes.len() == 0 {
        seq![]
    } else {
        session_jobs(notes.drop_last(), velocities, round_robin) + note_jobs(
            notes.last(),
            velocities,
            round_robin,
        )
    }
}

/// Lists every (note, velocity, take) job, notes outermost and takes
/// innermost, takes counted from 1.
pub fn generate_jobs(notes: &[u8], velocities: &[u8], round_robin: u32) -> (r: Vec<SampleJob>)
    ensures
        r@ == session_jobs(notes@, velocities@, round_robin as nat),
{
    let mut jobs: Vec<SampleJob> = Vec::new();
    let mut i: usize = 0;
    assert(notes@.take(0) =~= Seq::<u8>::empty());
    while i < notes.len()
        invariant
            i <= notes.len(),
            jobs@ == session_jobs(notes@.take(i as int), velocities@, round_robin as nat),
        decreases notes.len() - i,
    {
        let note = notes[i];
        let ghost base = jobs@;
        let mut j: usize = 0;
        assert(velocities@.take(0) =~= Seq::<u8>::empty());
        assert(base + note_jobs(note, velocities@.take(0), round_robin as nat) =~= base);
        while j < velocities.len()
            invariant
                i < notes.len(),
                note == notes@[i as int],
                j <= velocities.len(),
                jobs@ == base + note_jobs(note, velocities@.take(j as int), round_robin as nat),
            decreases velocities.len() - j,
        {
            let velocity = velocities[j];
            let ghost mid = jobs@;
            let mut k: u32 = 0;
            while k < round_robin
                invariant
                    k <= round_robin,
                    jobs@ == mid + take_jobs(note, velocity, k as nat),
                decreases round_robin - k,
            {
                jobs.push(SampleJob { note, velocity, rr_index: k + 1 });
                assert(take_jobs(note, velocity, (k + 1) as nat) =~= take_jobs(
                    note,
                    velocity,
                    k as nat,
                ).push(SampleJob { note, velocity, rr_index: (k + 1) as u32 }));
                k = k + 1;
            }
            assert(velocities@.take(j + 1).drop_last() =~= velocities@.take(j as int));
            assert(jobs@ =~= base + note_jobs(note, velocities@.take(j + 1), round_robin as nat));
            j = j + 1;
        }
        assert(velocities@.take(velocities.len() as int) =~= velocities@);
        assert(notes@.take(i + 1).drop_last() =~= notes@.take(i as int));
        i = i + 1;
    }
    assert(notes@.take(notes.len() as int) =~= notes@);
    jobs
}

/// A note's takes number `velocities * round_robin`.
pub proof fn lemma_note_jobs_len(note: u8, velocities: Seq<u8>, round_robin: nat)
    ensures
        note_jobs(note, velocities, round_robin).len() == velocities.len() * round_robin,
    decreases velocities.len(),
{
    if velocities.len() > 0 {
        lemma_note_jobs_len(note, velocities.drop_last(), round_robin);
        assert((velocities.len() - 1) * round_robin + round_robin == velocities.len() * round_robin)
            by (nonlinear_arith);
    }
}

/// A session has `notes * velocities * round_robin` jobs.
pub proof fn lemma_session_jobs_len(notes: Seq<u8>, velocities: Seq<u8>, round_robin: nat)
    ensures
        session_jobs(notes, velocities, round_robin).len() == notes.len() * velocities.len()
            * round_robin,
    decreases notes.len(),
{
    if notes.len() > 0 {
        lemma_session_jobs_len(notes.drop_last(), velocities, round_robin);
        lemma_note_jobs_len(notes.last(), velocities, round_robin);
        let n = notes.len() as int;
        let v = velocities.len() as int;
        let r = round_robin as int;
        assert((n - 1) * v * r + v * r == n * v * r) by (nonlinear_arith);
        assert(session_jobs(notes, velocities, round_robin).len() == (n - 1) * v * r + v * r);
    } else {
        assert(notes.len() * velocities.len() * round_robin == 0) by (nonlinear_arith)
            requires
                notes.len() == 0,
        ;
    }
}


/// Take `k` (from 0) at velocity `j` of a note sits at `j * round_robin + k`.
pub proof fn lemma_note_job_at(note: u8, velocities: Seq<u8>, round_robin: nat, j: int, k: int)
    requires
        0 <= j < velocities.len(),
        0 <= k < round_robin,
    ensures
        j * round_robin + k < note_jobs(note, velocities, round_robin).len(),
        note_jobs(note, velocities, round_robin)[j * round_robin + k] == (SampleJob {
            note,
            velocity: velocities[j],
            rr_index: (k + 1) as u32,
        }),
    decreases velocities.len(),
{
    let v = velocities.len() as int;
    let r = round_robin as int;
    lemma_note_jobs_len(note, velocities.drop_last(), round_robin);
    lemma_note_jobs_len(note, velocities, round_robin);
    if j == v - 1 {
        assert(j * r + k - (v - 1) * r == k) by (nonlinear_arith)
            requires
                j == v - 1,
        ;
        assert(j * r + k < v * r) by (nonlinear_arith)
            requires
                j == v - 1,
                k < r,
        ;
    } else {
        assert(j * r + k < (v - 1) * r) by (nonlinear_arith)
            requires
                j < v - 1,
                0 <= k < r,
        ;
        assert((v - 1) * r <= v * r) by (nonlinear_arith)
            requires
                r >= 0,
        ;
        lemma_note_job_at(note, velocities.drop_last(), round_robin, j, k);
    }
}

/// Job `(i, j, k)` (note `i`, velocity `j`, take `k`, all from 0) sits at
/// `(i * velocities + j) * round_robin + k`, and records note `i` at
/// velocity `j` as take `k + 1`: every combination is listed once, in
/// order.
pub proof fn lemma_session_job_at(
    notes: Seq<u8>,
    velocities: Seq<u8>,
    round_robin: nat,
    i: int,
    j: int,
    k: int,
)
    requires
        0 <= i < notes.len(),
        0 <= j < velocities.len(),
        0 <= k < round_robin,
    ensures
        (i * velocities.len() + j) * round_robin + k < session_jobs(
            notes,
            velocities,
            round_robin,
        ).len(),
        session_jobs(notes, velocities, round_robin)[(i * velocities.len() + j) * round_robin + k]
            == (SampleJob { note: notes[i], velocity: velocities[j], rr_index: (k + 1) as u32 }),
    decreases notes.len(),
{
    let n = notes.len() as int;
    let v = velocities.len() as int;
    let r = round_robin as int;
    let idx = (i * v + j) * r + k;
    lemma_session_jobs_len(notes.drop_last(), velocities, round_robin);
    lemma_session_jobs_len(notes, velocities, round_robin);
    lemma_note_jobs_len(notes.last(), velocities, round_robin);
    lemma_note_job_at(notes.last(), velocities, round_robin, j, k);
    assert(idx == i * (v * r) + (j * r + k)) by (nonlinear_arith)
        requires
            idx == (i * v + j) * r + k,
    ;
    assert(j * r + k < v * r) by (nonlinear_arith)
        requires
            j < v,
            0 <= k < r,
    ;
    assert((n - 1) * v * r == (n - 1) * (v * r)) by (nonlinear_arith);
    assert(n * v * r == n * (v * r)) by (nonlinear_arith);
    if i == n - 1 {
        assert(idx - (n - 1) * (v * r) == j * r + k) by (nonlinear_arith)
            requires
                i == n - 1,
                idx == i * (v * r) + (j * r + k),
        ;
        assert(idx < n * (v * r)) by (nonlinear_arith)
            requires
                i == n - 1,
                idx == i * (v * r) + (j * r + k),
                j * r + k < v * r,
        ;
    } else {
        let m = v * r;
        assert((i + 1) * m <= (n - 1) * m) by (nonlinear_arith)
            requires
                i + 1 <= n - 1,
                m >= 0,
        ;
        assert(i * m + m == (i + 1) * m) by (nonlinear_arith);
        assert(idx < (n - 1) * (v * r));
        assert((n - 1) * (v * r) <= n * (v * r)) by (nonlinear_arith)
            requires
                v * r >= 0,
        ;
        lemma_session_job_at(notes.drop_last(), velocities, round_robin, i, j, k);
    }
}

// ---------------------------------------------------------------------------
// Names and paths
// ---------------------------------------------------------------------------

/// Name of a pitch class as it appears in file names (`s` for sharps).
pub open spec fn file_pitch_name(p: int) -> Seq<char> {
    if p == 0 {
        seq!['C']
    } else if p == 1 {
        seq!['C', 's']
    } else if p == 2 {
        seq!['D']
    } else if p == 3 {
        seq!['D', 's']
    } else if p == 4 {
        seq!['E']
    } else if p == 5 {
        seq!['F']
    } else if p == 6 {
        seq!['F', 's']
    } else if p == 7 {
        seq!['G']
    } else if p == 8 {
        seq!['G', 's']
    } else if p == 9 {
        seq!['A']
    } else if p == 10 {
        seq!['A', 's']
    } else {
        seq!['B']
    }
}

/// A note's name in file names: pitch class, then octave `note / 12 - 1`.
pub open spec fn file_note_name(note: u8) -> Seq<char> {
    file_pitch_name(note as int % 12) + fmt_int(note as int / 12 - 1)
}

/// `<prefix>_<note name>_<note:03>_vel<velocity:03>_rr<take:02>.<ext>`.
pub open spec fn sample_file_name(prefix: Seq<char>, job: SampleJob, ext: Seq<char>) -> Seq<char> {
    prefix + seq!['_'] + file_note_name(job.note) + seq!['_'] + zero_pad(
        dec_digits(job.note as nat),
        3,
    ) + seq!['_', 'v', 'e', 'l'] + zero_pad(dec_digits(job.velocity as nat), 3) + seq!['_', 'r', 'r'] + zero_pad(
        dec_digits(job.rr_index as nat),
        2,
    ) + seq!['.'] + ext
}

/// `<note name>_<note:03>`, the directory of one note.
pub open spec fn note_dir_name(note: u8) -> Seq<char> {
    file_note_name(note) + seq!['_'] + zero_pad(dec_digits(note as nat), 3)
}

/// The directories, below the session's output directory, that hold a
/// job's files.
pub open spec fn sample_dir_components(organization: OutputOrganization, job: SampleJob) -> Seq<
    Seq<char>,
> {
    match organization {
        OutputOrganization::Flat => seq![seq!['s', 'a', 'm', 'p', 'l', 'e', 's']],
        OutputOrganization::ByNote => seq![seq!['s', 'a', 'm', 'p', 'l', 'e', 's'], note_dir_name(job.note)],
        OutputOrganization::ByNoteVelocity => seq![
            seq!['s', 'a', 'm', 'p', 'l', 'e', 's'],
            note_dir_name(job.note),
            seq!['v', 'e', 'l'] + zero_pad(dec_digits(job.velocity as nat), 3),
        ],
    }
}

/// The path components, below the session's output directory, of a job's
/// file.
pub open spec fn sample_path_components(
    prefix: Seq<char>,
    organization: OutputOrganization,
    job: SampleJob,
    ext: Seq<char>,
) -> Seq<Seq<char>> {
    sample_dir_components(organization, job).push(sample_file_name(prefix, job, ext))
}

/// The texts of a list of strings.
pub open spec fn texts(v: Seq<String>) -> Seq<Seq<char>> {
    v.map_values(|s: String| s@)
}

fn push_file_pitch_name(out: &mut Vec<char>, p: u8)
    requires
        p < 12,
    ensures
        final(out)@ == old(out)@ + file_pitch_name(p as int),
{
    let ghost start = out@;
    let letter = if p <= 1 {
        'C'
    } else if p <= 3 {
        'D'
    } else if p == 4 {
        'E'
    } else if p <= 6 {
        'F'
    } else if p <= 8 {
        'G'
    } else if p <= 10 {
        'A'
    } else {
        'B'
    };
    out.push(letter);
    if p == 1 || p == 3 || p == 6 || p == 8 || p == 10 {
        out.push('s');
    }
    assert(out@ =~= start + file_pitch_name(p as int));
}

fn push_file_note_name(out: &mut Vec<char>, note: u8)
    ensures
        final(out)@ == old(out)@ + file_note_name(note),
{
    let ghost start = out@;
    push_file_pitch_name(out, note % 12);
    let octave: i64 = (note / 12) as i64 - 1;
    push_signed(out, octave);
    assert(out@ =~= start + file_note_name(note));
}

/// A note's name as used in file and directory names, such as `Cs4`.
pub fn midi_note_to_name(note: u8) -> (r: String)
    ensures
        r@ == file_note_name(note),
{
    let mut out: Vec<char> = Vec::new();
    push_file_note_name(&mut out, note);
    assert(out@ =~= file_note_name(note));
    string_from_chars(&out)
}

/// A job's file name, such as `sample_C4_060_vel100_rr01.wav`.
pub fn build_sample_filename(prefix: &str, job: &SampleJob, extension: &str) -> (r: String)
    ensures
        r@ == sample_file_name(prefix@, *job, extension@),
{
    let mut out: Vec<char> = chars_of(prefix);
    out.push('_');
    push_file_note_name(&mut out, job.note);
    out.push('_');
    push_decimal(&mut out, job.note as u64, 3);
    push_all(&mut out, &vec!['_', 'v', 'e', 'l']);
    push_decimal(&mut out, job.velocity as u64, 3);
    push_all(&mut out, &vec!['_', 'r', 'r']);
    push_decimal(&mut out, job.rr_index as u64, 2);
    out.push('.');
    let e = chars_of(extension);
    push_all(&mut out, &e);
    assert(out@ =~= sample_file_name(prefix@, *job, extension@));
    string_from_chars(&out)
}

/// The directories, below the session's output directory, that hold a
/// job's files: `samples`, then the note's directory (`ByNote`), then the
/// velocity's (`ByNoteVelocity`).
pub fn build_sample_dir(organization: OutputOrganization, job: &SampleJob) -> (r: Vec<String>)
    ensures
        texts(r@) == sample_dir_components(organization, *job),
{
    let mut out: Vec<String> = Vec::new();
    let samples = vec!['s', 'a', 'm', 'p', 'l', 'e', 's'];
    out.push(string_from_chars(&samples));
    match organization {
        OutputOrganization::Flat => {},
        _ => {
            let mut dir: Vec<char> = Vec::new();
            push_file_note_name(&mut dir, job.note);
            dir.push('_');
            push_decimal(&mut dir, job.note as u64, 3);
            assert(dir@ =~= note_dir_name(job.note));
            out.push(string_from_chars(&dir));
            if organization == OutputOrganization::ByNoteVelocity {
                let mut vel = vec!['v', 'e', 'l'];
                push_decimal(&mut vel, job.velocity as u64, 3);
                out.push(string_from_chars(&vel));
            }
        },
    }
    assert(texts(out@) =~= sample_dir_components(organization, *job));
    out
}

/// The path components, below the session's output directory, of a job's
/// file: its directories, then its file name.
pub fn build_file_path(
    prefix: &str,
    organization: OutputOrganization,
    job: &SampleJob,
    extension: &str,
) -> (r: Vec<String>)
    ensures
        texts(r@) == sample_path_components(prefix@, organization, *job, extension@),
{
    let mut out = build_sample_dir(organization, job);
    let ghost dirs = out@;
    out.push(build_sample_filename(prefix, job, extension));
    assert(texts(out@) =~= texts(dirs).push(sample_file_name(prefix@, *job, extension@)));
    out
}

/// A note's file-system name (such as `Cs4` or `As-1`) read back by the
/// note reader, which trims and upper-cases it first, gives the note: the
/// name is trimmed and ASCII already, and its upper-case form reads as the
/// note, for every note in 0..=127.
pub proof fn lemma_file_note_name_reads_back(n: u8)
    requires
        n <= 127,
    ensures
        trim(file_note_name(n)) == file_note_name(n),
        is_ascii_text(file_note_name(n)),
        upper_note_outcome(ascii_upper(file_note_name(n))) == Some(
            Ok::<u8, crate::parse::ParseErrorView>(n),
        ),
{
    let p = n as int % 12;
    let o = n as int / 12 - 1;
    let pn = file_pitch_name(p);
    let on = fmt_int(o);
    let name = file_note_name(n);
    lemma_fmt_int_read(o, i32::MIN as int, i32::MAX as int);
    assert(name == pn + on);
    let sharp = p == 1 || p == 3 || p == 6 || p == 8 || p == 10;
    let letter = pn[0];
    assert(letter == 'C' || letter == 'D' || letter == 'E' || letter == 'F' || letter == 'G'
        || letter == 'A' || letter == 'B');
    if sharp {
        assert(pn =~= seq![letter, 's']);
    } else {
        assert(pn =~= seq![letter]);
    }
    assert(name[0] == letter);
    assert(name.last() == on.last());
    lemma_trim_of_trimmed(name);
    assert forall|i: int| 0 <= i < name.len() implies (#[trigger] name[i] as u32) < 128 by {
        if i >= pn.len() {
            assert(name[i] == on[i - pn.len()]);
        }
    }
    let up = ascii_upper(name);
    let upn = if sharp {
        seq![letter, 'S']
    } else {
        seq![letter]
    };
    assert(ascii_upper_char('s') == 'S');
    assert forall|i: int| 0 <= i < name.len() implies #[trigger] up[i] == (upn + on)[i] by {
        if i >= pn.len() {
            assert(name[i] == on[i - pn.len()]);
            assert((upn + on)[i] == on[i - pn.len()]);
        }
    }
    assert(up =~= upn + on);
    let cut: int = if sharp {
        2
    } else {
        1
    };
    assert(up.skip(cut) =~= on);
    assert(up.take(cut) =~= upn);
    if !sharp {
        assert(up[1] == on[0]);
    }
    assert(crate::parse::char_width(up[0]) == 1);
    assert(crate::parse::pitch_of(upn) == Some(p));
    assert((o + 1) * 12 + p == n);
}

/// File-system note names are the note names with `#` written `s`.
pub proof fn lemma_file_note_name_is_note_name(note: u8)
    ensures
        file_note_name(note) == sharps_as_s(note_name(note)),
{
    let p = note as int % 12;
    let o = fmt_int(note as int / 12 - 1);
    assert(forall|i: int| 0 <= i < o.len() ==> o[i] != '#') by {
        lemma_fmt_int_has_no_hash(note as int / 12 - 1);
    }
    assert(sharps_as_s(pitch_class_name(p) + o) =~= sharps_as_s(pitch_class_name(p))
        + sharps_as_s(o));
    assert(sharps_as_s(o) =~= o);
    assert(sharps_as_s(pitch_class_name(p)) =~= file_pitch_name(p));
}

proof fn lemma_dec_digits_are_digits(n: nat)
    ensures
        forall|i: int| 0 <= i < dec_digits(n).len() ==> '0' <= #[trigger] dec_digits(n)[i] <= '9',
    decreases n,
{
    if n >= 10 {
        lemma_dec_digits_are_digits(n / 10);
        let d = dec_digits(n / 10);
        assert forall|i: int| 0 <= i < dec_digits(n).len() implies '0' <= #[trigger] dec_digits(
            n,
        )[i] <= '9' by {
            if i < d.len() {
                assert(dec_digits(n)[i] == d[i]);
            }
        }
    }
}

proof fn lemma_fmt_int_has_no_hash(i: int)
    ensures
        forall|k: int| 0 <= k < fmt_int(i).len() ==> fmt_int(i)[k] != '#',
{
    if i < 0 {
        lemma_dec_digits_are_digits((-i) as nat);
        assert forall|k: int| 0 <= k < fmt_int(i).len() implies fmt_int(i)[k] != '#' by {
            if k > 0 {
                assert(fmt_int(i)[k] == dec_digits((-i) as nat)[k - 1]);
            }
        }
    } else {
        lemma_dec_digits_are_digits(i as nat);
    }
}

/// A job's file name is the name `format_filename` gives the same note,
/// velocity and take.
pub proof fn lemma_sample_file_name_matches_format_filename(
    prefix: Seq<char>,
    job: SampleJob,
    ext: Seq<char>,
)
    ensures
        sample_file_name(prefix, job, ext) == crate::midi_note::sample_filename(
            prefix,
            job.note,
            job.velocity,
            job.rr_index,
            ext,
        ),
{
    lemma_file_note_name_is_note_name(job.note);
}

} // verus!
