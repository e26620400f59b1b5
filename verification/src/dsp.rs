//! The frame arithmetic of audio processing. Which samples are loud and
//! the gains applied are floating-point work done by the caller; this
//! module decides which frames a trim keeps, which normalisation a mode
//! names, and how many frames a fade covers.

use vstd::prelude::*;
use crate::text::range_equals;

verus! {

// ---------------------------------------------------------------------------
// Trimming silence
// ---------------------------------------------------------------------------

/// Whether chunk `f` (samples `f*fs .. f*fs + fs`, cut at the end) holds a
/// loud sample.
pub open spec fn chunk_loud(loud: Seq<bool>, fs: int, f: int) -> bool {
    exists|k: int| f * fs <= k < f * fs + fs && 0 <= k < loud.len() && #[trigger] loud[k]
}

/// Number of chunks, counting a shorter last one.
pub open spec fn chunk_count(len: int, fs: int) -> int {
    if len % fs == 0 {
        len / fs
    } else {
        len / fs + 1
    }
}

/// The first loud chunk at or after `f`.
pub open spec fn first_loud_chunk(loud: Seq<bool>, fs: int, f: int) -> Option<int>
    decreases chunk_count(loud.len() as int, fs) - f,
{
    if f < 0 || fs <= 0 || f >= chunk_count(loud.len() as int, fs) {
        None
    } else if chunk_loud(loud, fs, f) {
        Some(f)
    } else {
        first_loud_chunk(loud, fs, f + 1)
    }
}

/// The last loud chunk below `f`.
pub open spec fn last_loud_chunk_below(loud: Seq<bool>, fs: int, f: int) -> Option<int>
    decreases f,
{
    if f <= 0 {
        None
    } else if chunk_loud(loud, fs, f - 1) {
        Some(f - 1)
    } else {
        last_loud_chunk_below(loud, fs, f - 1)
    }
}

/// End of the loud part before the tail is added: one past the last loud
/// whole frame (all frames when none is loud); with no whole frame, one
/// when the short chunk is loud.
pub open spec fn trim_end_raw(loud: Seq<bool>, fs: int) -> int {
    let nf = loud.len() as int / fs;
    if nf == 0 {
        if chunk_loud(loud, fs, 0) {
            1
        } else {
            0
        }
    } else {
        match last_loud_chunk_below(loud, fs, nf) {
            Some(f) => f + 1,
            None => nf,
        }
    }
}

/// The frames `(start, end)` that trimming keeps: from the first chunk with
/// a loud sample (0 when none is) to one past the last loud whole frame,
/// extended by `min_tail_samples / fs` frames and cut at the whole frames.
pub open spec fn trim_bounds(loud: Seq<bool>, fs: int, min_tail_samples: int) -> (int, int) {
    let nf = loud.len() as int / fs;
    let start = match first_loud_chunk(loud, fs, 0) {
        Some(f) => f,
        None => 0,
    };
    let end_tail = trim_end_raw(loud, fs) + min_tail_samples / fs;
    (start, if end_tail < nf {
        end_tail
    } else {
        nf
    })
}

proof fn lemma_chunk_step(f: int, fs: int)
    ensures
        (f + 1) * fs == f * fs + fs,
{
    assert((f + 1) * fs == f * fs + fs) by (nonlinear_arith);
}

/// Whether samples `lo..hi` hold a loud one.
fn any_loud(loud: &Vec<bool>, lo: usize, hi: usize) -> (r: bool)
    requires
        lo <= hi <= loud.len(),
    ensures
        r == exists|k: int| lo <= k < hi && #[trigger] loud@[k],
{
    let mut k = lo;
    while k < hi
        invariant
            lo <= k <= hi <= loud.len(),
            forall|j: int| lo <= j < k ==> !loud@[j],
        decreases hi - k,
    {
        if loud[k] {
            return true;
        }
        k = k + 1;
    }
    false
}

/// Whether chunk `f` starting at sample `i == f * fs` is loud.
fn chunk_is_loud(loud: &Vec<bool>, fs: usize, f: Ghost<int>, i: usize) -> (r: bool)
    requires
        fs > 0,
        i == f@ * fs,
        i <= loud.len(),
    ensures
        r == chunk_loud(loud@, fs as int, f@),
{
    let end = if fs > loud.len() - i {
        loud.len()
    } else {
        i + fs
    };
    let r = any_loud(loud, i, end);
    assert(r == chunk_loud(loud@, fs as int, f@)) by {
        if r {
            let k = choose|k: int| i <= k < end && #[trigger] loud@[k];
            assert(f@ * fs <= k < f@ * fs + fs && 0 <= k < loud@.len() && loud@[k]);
        }
        if chunk_loud(loud@, fs as int, f@) {
            let k = choose|k: int|
                f@ * fs <= k < f@ * fs + fs && 0 <= k < loud@.len() && #[trigger] loud@[k];
            assert(i <= k < end && loud@[k]);
        }
    }
    r
}

/// The first chunk (whole or short) holding a loud sample.
fn first_loud_frame(loud: &Vec<bool>, fs: usize) -> (r: Option<usize>)
    requires
        fs > 0,
    ensures
        r is None <==> first_loud_chunk(loud@, fs as int, 0) is None,
        r matches Some(f) ==> first_loud_chunk(loud@, fs as int, 0) == Some(f as int),
{
    let n = loud.len();
    let ghost count = chunk_count(n as int, fs as int);
    let mut f: usize = 0;
    let mut i: usize = 0;
    while i < n
        invariant
            fs > 0,
            n == loud.len(),
            i == f * fs,
            count == chunk_count(n as int, fs as int),
            first_loud_chunk(loud@, fs as int, 0) == first_loud_chunk(loud@, fs as int, f as int),
        decreases n - i,
    {
        proof {
            lemma_chunk_step(f as int, fs as int);
            lemma_chunk_below_count(n as int, fs as int, f as int);
            assert(f <= i) by (nonlinear_arith)
                requires
                    i == f * fs,
                    fs > 0,
            ;
        }
        if chunk_is_loud(loud, fs, Ghost(f as int), i) {
            return Some(f);
        }
        f = f + 1;
        if fs > n - i {
            proof {
                lemma_chunk_at_or_past_count(n as int, fs as int, f as int);
            }
            return None;
        }
        i = i + fs;
    }
    proof {
        lemma_chunk_at_or_past_count(n as int, fs as int, f as int);
    }
    None
}

proof fn lemma_chunk_below_count(n: int, fs: int, f: int)
    requires
        fs > 0,
        0 <= f,
        f * fs < n,
    ensures
        f < chunk_count(n, fs),
{
    let q = n / fs;
    let r = n % fs;
    assert(n == q * fs + r && 0 <= r < fs) by (nonlinear_arith)
        requires
            fs > 0,
            q == n / fs,
            r == n % fs,
    ;
    assert(f <= q) by (nonlinear_arith)
        requires
            f * fs < n,
            n == q * fs + r,
            0 <= r < fs,
            fs > 0,
            0 <= f,
    ;
    if f == q {
        assert(r > 0) by (nonlinear_arith)
            requires
                f * fs < n,
                n == q * fs + r,
                f == q,
        ;
    }
}

proof fn lemma_chunk_at_or_past_count(n: int, fs: int, f: int)
    requires
        fs > 0,
        0 <= f,
        f * fs >= n,
    ensures
        f >= chunk_count(n, fs),
{
    let q = n / fs;
    let r = n % fs;
    assert(n == q * fs + r && 0 <= r < fs) by (nonlinear_arith)
        requires
            fs > 0,
            q == n / fs,
            r == n % fs,
    ;
    if f < q {
        assert(f * fs < n) by (nonlinear_arith)
            requires
                f < q,
                n == q * fs + r,
                0 <= r,
                fs > 0,
                0 <= f,
        ;
    }
    if f == q && r > 0 {
        assert(f * fs < n) by (nonlinear_arith)
            requires
                f == q,
                n == q * fs + r,
                r > 0,
        ;
    }
}

/// The last loud chunk below `nf`.
fn last_loud_whole_frame(loud: &Vec<bool>, fs: usize, nf: usize) -> (r: Option<usize>)
    requires
        fs > 0,
        nf * fs <= loud.len(),
    ensures
        r is None <==> last_loud_chunk_below(loud@, fs as int, nf as int) is None,
        r matches Some(f) ==> f < nf && last_loud_chunk_below(loud@, fs as int, nf as int) == Some(
            f as int,
        ),
{
    proof {
        lemma_last_loud_below(loud@, fs as int, nf as int);
    }
    let mut g: usize = nf;
    while g > 0
        invariant
            g <= nf,
            fs > 0,
            nf * fs <= loud.len(),
            last_loud_chunk_below(loud@, fs as int, nf as int) == last_loud_chunk_below(
                loud@,
                fs as int,
                g as int,
            ),
        decreases g,
    {
        proof {
            assert((g - 1) * fs <= nf * fs) by (nonlinear_arith)
                requires
                    g <= nf,
                    g >= 1,
                    fs > 0,
            ;
        }
        let start = (g - 1) * fs;
        if chunk_is_loud(loud, fs, Ghost((g - 1) as int), start) {
            return Some(g - 1);
        }
        g = g - 1;
    }
    None
}

/// The frames that trimming silence keeps, given for every sample whether
/// it is loud (above the threshold): see `trim_bounds`. Frames are
/// `channels` samples long.
pub fn trim_frames(loud: &Vec<bool>, channels: usize, min_tail_samples: usize) -> (r: (
    usize,
    usize,
))
    requires
        channels > 0,
        trim_end_raw(loud@, channels as int) + min_tail_samples / channels <= usize::MAX,
    ensures
        (r.0 as int, r.1 as int) == trim_bounds(loud@, channels as int, min_tail_samples as int),
        r.0 <= r.1 <= loud.len() / channels,
{
    let fs = channels;
    let n = loud.len();
    let nf = n / fs;
    proof {
        assert(nf * fs <= n) by (nonlinear_arith)
            requires
                nf == n / fs,
                fs > 0,
        ;
    }
    let start_frame = match first_loud_frame(loud, fs) {
        Some(f) => f,
        None => 0,
    };
    let end_raw: usize = if nf == 0 {
        proof {
            assert(0int * (fs as int) == 0) by (nonlinear_arith);
        }
        if chunk_is_loud(loud, fs, Ghost(0int), 0) {
            1
        } else {
            0
        }
    } else {
        match last_loud_whole_frame(loud, fs, nf) {
            Some(f) => f + 1,
            None => nf,
        }
    };
    assert(nf as int == loud@.len() as int / fs as int);
    assert(end_raw as int == trim_end_raw(loud@, fs as int));
    let tail_frames = min_tail_samples / fs;
    let end_sum = end_raw + tail_frames;
    let end_frame = if end_sum < nf {
        end_sum
    } else {
        nf
    };
    proof {
        lemma_trim_start_before_end(loud@, fs as int, min_tail_samples as int);
    }
    (start_frame, end_frame)
}

proof fn lemma_first_loud_at_least(loud: Seq<bool>, fs: int, f: int)
    requires
        fs > 0,
        f >= 0,
    ensures
        first_loud_chunk(loud, fs, f) matches Some(g) ==> f <= g && g < chunk_count(
            loud.len() as int,
            fs,
        ) && chunk_loud(loud, fs, g) && forall|h: int| f <= h < g ==> !chunk_loud(loud, fs, h),
        first_loud_chunk(loud, fs, f) is None ==> forall|h: int|
            f <= h < chunk_count(loud.len() as int, fs) ==> !chunk_loud(loud, fs, h),
    decreases chunk_count(loud.len() as int, fs) - f,
{
    if f < chunk_count(loud.len() as int, fs) && !chunk_loud(loud, fs, f) {
        lemma_first_loud_at_least(loud, fs, f + 1);
    }
}

proof fn lemma_last_loud_below(loud: Seq<bool>, fs: int, f: int)
    ensures
        last_loud_chunk_below(loud, fs, f) matches Some(g) ==> 0 <= g < f && chunk_loud(
            loud,
            fs,
            g,
        ) && forall|h: int| g < h < f ==> !chunk_loud(loud, fs, h),
        last_loud_chunk_below(loud, fs, f) is None ==> forall|h: int|
            0 <= h < f ==> !chunk_loud(loud, fs, h),
    decreases f,
{
    if f > 0 && !chunk_loud(loud, fs, f - 1) {
        lemma_last_loud_below(loud, fs, f - 1);
    }
}

/// Trimming never starts after it ends, and ends within the whole frames.
pub proof fn lemma_trim_start_before_end(loud: Seq<bool>, fs: int, min_tail_samples: int)
    requires
        fs > 0,
        min_tail_samples >= 0,
    ensures
        0 <= trim_bounds(loud, fs, min_tail_samples).0 <= trim_bounds(
            loud,
            fs,
            min_tail_samples,
        ).1 <= loud.len() as int / fs,
{
    let nf = loud.len() as int / fs;
    let count = chunk_count(loud.len() as int, fs);
    lemma_first_loud_at_least(loud, fs, 0);
    lemma_last_loud_below(loud, fs, nf);
    assert(nf <= count && count <= nf + 1);
    assert(min_tail_samples / fs >= 0) by (nonlinear_arith)
        requires
            min_tail_samples >= 0,
            fs > 0,
    ;
    assert(trim_end_raw(loud, fs) >= 0);
    match first_loud_chunk(loud, fs, 0) {
        None => {},
        Some(f0) => {
            if f0 < nf {
                // a loud whole frame exists, so the last one is at or after it
                assert(last_loud_chunk_below(loud, fs, nf) is Some);
            } else {
                assert(f0 == nf);
                if nf == 0 {
                } else {
                    assert(last_loud_chunk_below(loud, fs, nf) is None);
                }
            }
        },
    }
}

/// The sample positions `(start, end)` that trimming by whole frames
/// keeps: from the first loud whole frame (0 when none is) to one past the
/// last loud whole frame (all frames when none is), extended by
/// `min_tail_samples / fs` frames and cut at the whole frames; nothing of
/// an empty input.
pub open spec fn whole_frame_trim(loud: Seq<bool>, fs: int, min_tail_samples: int) -> (int, int) {
    let nf = loud.len() as int / fs;
    let start = match first_loud_chunk(loud, fs, 0) {
        Some(f) => if f < nf {
            f
        } else {
            0
        },
        None => 0,
    };
    let end_raw = match last_loud_chunk_below(loud, fs, nf) {
        Some(f) => f + 1,
        None => nf,
    };
    let end_tail = end_raw + min_tail_samples / fs;
    let end = if end_tail <= nf {
        end_tail
    } else {
        nf
    };
    if loud.len() == 0 {
        (0, 0)
    } else {
        (start * fs, end * fs)
    }
}

/// Trimming by whole frames, given for every sample whether it is loud:
/// see `whole_frame_trim`. The bounds are sample positions, frames being
/// `channels` samples long, and never cross.
pub fn trim_sample_bounds(loud: &Vec<bool>, channels: usize, min_tail_samples: usize) -> (r: (
    usize,
    usize,
))
    requires
        channels > 0 || loud.len() == 0,
        loud.len() > 0 ==> loud.len() / channels + min_tail_samples / channels <= usize::MAX,
    ensures
        (r.0 as int, r.1 as int) == whole_frame_trim(loud@, channels as int, min_tail_samples as int),
        r.0 <= r.1 <= loud.len(),
{
    if loud.len() == 0 {
        return (0, 0);
    }
    let fs = channels;
    let n = loud.len();
    let nf = n / fs;
    proof {
        assert(nf * fs <= n) by (nonlinear_arith)
            requires
                nf == n / fs,
                fs > 0,
        ;
    }
    let start_frame = match first_loud_frame(loud, fs) {
        Some(f) => if f < nf {
            f
        } else {
            0
        },
        None => 0,
    };
    let last = last_loud_whole_frame(loud, fs, nf);
    let end_raw: usize = match last {
        Some(f) => f + 1,
        None => nf,
    };
    let tail_frames = min_tail_samples / fs;
    let end_frame = if end_raw + tail_frames <= nf {
        end_raw + tail_frames
    } else {
        nf
    };
    proof {
        lemma_first_loud_at_least(loud@, fs as int, 0);
        lemma_last_loud_below(loud@, fs as int, nf as int);
        if start_frame > 0 {
            assert(chunk_loud(loud@, fs as int, start_frame as int));
            assert(last is Some);
        }
        assert(start_frame <= end_frame);
        assert(end_frame <= nf);
        assert(start_frame * fs <= end_frame * fs) by (nonlinear_arith)
            requires
                start_frame <= end_frame,
                fs > 0,
        ;
        assert(end_frame * fs <= nf * fs) by (nonlinear_arith)
            requires
                end_frame <= nf,
                fs > 0,
        ;
    }
    (start_frame * fs, end_frame * fs)
}

// ---------------------------------------------------------------------------
// Normalisation and fades
// ---------------------------------------------------------------------------

/// The peak level that normalising aims at.
#[derive(Debug, Clone, Copy, PartialEq, Eq, Structural)]
pub enum NormalizeMode {
    /// A peak of 0.99.
    Peak,
    /// A peak of -1 dBFS.
    MinusOneDb,
}

/// The mode named `peak`, or `-1dB` / `-1db`; any other word leaves audio
/// unchanged.
pub open spec fn normalize_mode_named(mode: Seq<char>) -> Option<NormalizeMode> {
    if mode == seq!['p', 'e', 'a', 'k'] {
        Some(NormalizeMode::Peak)
    } else if mode == seq!['-', '1', 'd', 'B'] || mode == seq!['-', '1', 'd', 'b'] {
        Some(NormalizeMode::MinusOneDb)
    } else {
        None
    }
}

impl NormalizeMode {
    /// The normalisation a mode word asks for (matched exactly).
    pub fn from_mode(mode: &str) -> (r: Option<NormalizeMode>)
        ensures
            r == normalize_mode_named(mode@),
    {
        let m = crate::text::chars_of(mode);
        let n = m.len();
        assert(m@.subrange(0, n as int) =~= m@);
        if range_equals(&m, 0, n, &vec!['p', 'e', 'a', 'k']) {
            Some(NormalizeMode::Peak)
        } else if range_equals(&m, 0, n, &vec!['-', '1', 'd', 'B']) || range_equals(
            &m,
            0,
            n,
            &vec!['-', '1', 'd', 'b'],
        ) {
            Some(NormalizeMode::MinusOneDb)
        } else {
            None
        }
    }
}

/// Frames faded in at the start and out at the end: the requested count,
/// at most half of the frames.
pub fn fade_frame_count(len: usize, channels: usize, fade_samples: usize) -> (r: usize)
    requires
        channels > 0,
    ensures
        r == (if fade_samples < len / channels / 2 {
            fade_samples
        } else {
            len / channels / 2
        }),
        r * 2 <= len / channels,
{
    let frames = len / channels;
    let half = frames / 2;
    if fade_samples < half {
        fade_samples
    } else {
        half
    }
}

/// The normalisation a lower-case mode word names: `peak` or `-1db`; `off`
/// and any other word leave audio unchanged.
pub open spec fn lowercase_mode_named(mode: Seq<char>) -> Option<NormalizeMode> {
    if mode == seq!['p', 'e', 'a', 'k'] {
        Some(NormalizeMode::Peak)
    } else if mode == seq!['-', '1', 'd', 'b'] {
        Some(NormalizeMode::MinusOneDb)
    } else {
        None
    }
}

impl NormalizeMode {
    /// The normalisation a lower-case mode word asks for (matched exactly).
    pub fn from_lowercase_mode(mode: &str) -> (r: Option<NormalizeMode>)
        ensures
            r == lowercase_mode_named(mode@),
    {
        let m = crate::text::chars_of(mode);
        let n = m.len();
        assert(m@.subrange(0, n as int) =~= m@);
        if range_equals(&m, 0, n, &vec!['p', 'e', 'a', 'k']) {
            Some(NormalizeMode::Peak)
        } else if range_equals(&m, 0, n, &vec!['-', '1', 'd', 'b']) {
            Some(NormalizeMode::MinusOneDb)
        } else {
            None
        }
    }
}

/// Frames faded in at the start and out at the end of a take: none when
/// there is no audio or no fade, else the requested count, at most a
/// quarter of the frames.
pub fn quarter_fade_frame_count(len: usize, channels: usize, fade_samples: usize) -> (r: usize)
    requires
        channels > 0 || len == 0 || fade_samples == 0,
    ensures
        len == 0 || fade_samples == 0 ==> r == 0,
        len > 0 && fade_samples > 0 ==> r == (if fade_samples < len / channels / 4 {
            fade_samples
        } else {
            len / channels / 4
        }),
        len > 0 && fade_samples > 0 ==> r * 4 <= len / channels,
{
    if len == 0 || fade_samples == 0 {
        return 0;
    }
    let quarter = len / channels / 4;
    if fade_samples < quarter {
        fade_samples
    } else {
        quarter
    }
}

} // verus!
