//! Character-level helpers shared by the parsers and formatters: Unicode
//! whitespace, trimming, pattern search and splitting, integer parsing with
//! the rules of std's `FromStr` for integers, and decimal formatting.

use vstd::prelude::*;

verus! {

// ---------------------------------------------------------------------------
// Whitespace and trimming
// ---------------------------------------------------------------------------

/// The Unicode `White_Space` property, which `char::is_whitespace` and
/// `str::trim` use.
pub open spec fn is_white_space(c: char) -> bool {
    let u = c as u32;
    ||| 0x9 <= u && u <= 0xD
    ||| u == 0x20
    ||| u == 0x85
    ||| u == 0xA0
    ||| u == 0x1680
    ||| 0x2000 <= u && u <= 0x200A
    ||| u == 0x2028
    ||| u == 0x2029
    ||| u == 0x202F
    ||| u == 0x205F
    ||| u == 0x3000
}

pub fn is_whitespace(c: char) -> (r: bool)
    ensures
        r == is_white_space(c),
{
    let u = c as u32;
    (0x9 <= u && u <= 0xD) || u == 0x20 || u == 0x85 || u == 0xA0 || u == 0x1680 || (0x2000 <= u
        && u <= 0x200A) || u == 0x2028 || u == 0x2029 || u == 0x202F || u == 0x205F || u == 0x3000
}

pub open spec fn trim_front(s: Seq<char>) -> Seq<char>
    decreases s.len(),
{
    if s.len() > 0 && is_white_space(s[0]) {
        trim_front(s.drop_first())
    } else {
        s
    }
}

pub open spec fn trim_back(s: Seq<char>) -> Seq<char>
    decreases s.len(),
{
    if s.len() > 0 && is_white_space(s.last()) {
        trim_back(s.drop_last())
    } else {
        s
    }
}

/// What `str::trim` leaves of `s`.
pub open spec fn trim(s: Seq<char>) -> Seq<char> {
    trim_back(trim_front(s))
}

/// Finds the bounds of `trim(s[lo..hi])` inside `s`.
pub fn trim_range(s: &Vec<char>, lo: usize, hi: usize) -> (r: (usize, usize))
    requires
        lo <= hi <= s.len(),
    ensures
        lo <= r.0 <= r.1 <= hi,
        s@.subrange(r.0 as int, r.1 as int) == trim(s@.subrange(lo as int, hi as int)),
{
    let mut i = lo;
    while i < hi && is_whitespace(s[i])
        invariant
            lo <= i <= hi <= s.len(),
            trim_front(s@.subrange(lo as int, hi as int)) == trim_front(
                s@.subrange(i as int, hi as int),
            ),
        decreases hi - i,
    {
        assert(s@.subrange(i as int, hi as int).drop_first() =~= s@.subrange(
            i + 1,
            hi as int,
        ));
        i = i + 1;
    }
    assert(trim_front(s@.subrange(i as int, hi as int)) == s@.subrange(i as int, hi as int));
    let mut j = hi;
    while j > i && is_whitespace(s[j - 1])
        invariant
            lo <= i <= j <= hi <= s.len(),
            trim(s@.subrange(lo as int, hi as int)) == trim_back(s@.subrange(i as int, j as int)),
        decreases j - i,
    {
        assert(s@.subrange(i as int, j as int).drop_last() =~= s@.subrange(
            i as int,
            j - 1,
        ));
        j = j - 1;
    }
    (i, j)
}

// ---------------------------------------------------------------------------
// Conversions between strings and character vectors
// ---------------------------------------------------------------------------

/// The characters of `s`, in order.
pub fn chars_of(s: &str) -> (r: Vec<char>)
    ensures
        r@ == s@,
{
    let mut v: Vec<char> = Vec::new();
    for c in it: s.chars()
        invariant
            v@ == it.seq().take(it.index() as int),
            it.seq() == s@,
    {
        v.push(c);
    }
    v
}


/// A `String` holding the characters of `v`.
#[verifier::external_body]
pub(crate) fn string_from_chars(v: &Vec<char>) -> (r: String)
    ensures
        r@ == v@,
{
    v.iter().collect()
}

/// Whether every character of `s` is ASCII.
pub open spec fn is_ascii_text(s: Seq<char>) -> bool {
    forall|i: int| 0 <= i < s.len() ==> (#[trigger] s[i] as u32) < 128
}

/// `c` with `a`–`z` mapped to `A`–`Z`.
pub open spec fn ascii_upper_char(c: char) -> char {
    if 'a' <= c && c <= 'z' {
        ((c as u32) - 32) as char
    } else {
        c
    }
}

/// `s` with `a`–`z` mapped to `A`–`Z`, every other character kept.
pub open spec fn ascii_upper(s: Seq<char>) -> Seq<char> {
    s.map_values(|c: char| ascii_upper_char(c))
}

/// `c` with `A`–`Z` mapped to `a`–`z`.
pub open spec fn ascii_lower_char(c: char) -> char {
    if 'A' <= c && c <= 'Z' {
        ((c as u32) + 32) as char
    } else {
        c
    }
}

/// `s` with `A`–`Z` mapped to `a`–`z`, every other character kept.
pub open spec fn ascii_lower(s: Seq<char>) -> Seq<char> {
    s.map_values(|c: char| ascii_lower_char(c))
}

/// What `str::to_uppercase` returns for a string with characters `s`
/// (full Unicode case mapping, which may change the length).
pub uninterp spec fn str_to_uppercase(s: Seq<char>) -> Seq<char>;

/// What `str::to_lowercase` returns for a string with characters `s`.
pub uninterp spec fn str_to_lowercase(s: Seq<char>) -> Seq<char>;

/// Calls `str::to_uppercase` on the string made of `s`. The contract names
/// the result and, for an all-ASCII string, states the ASCII part of the
/// Unicode case mapping: `a`–`z` become `A`–`Z` and every other ASCII
/// character stays. It says nothing of non-ASCII characters.
#[verifier::external_body]
pub(crate) fn to_uppercase(s: &Vec<char>) -> (r: Vec<char>)
    ensures
        r@ == str_to_uppercase(s@),
        is_ascii_text(s@) ==> r@ == ascii_upper(s@),
{
    let st: String = s.iter().collect();
    st.to_uppercase().chars().collect()
}

/// Calls `str::to_lowercase` on the string made of `s`. The contract names
/// the result and, for an all-ASCII string, states the ASCII part of the
/// Unicode case mapping: `A`–`Z` become `a`–`z` and every other ASCII
/// character stays. It says nothing of non-ASCII characters.
#[verifier::external_body]
pub(crate) fn to_lowercase(s: &Vec<char>) -> (r: Vec<char>)
    ensures
        r@ == str_to_lowercase(s@),
        is_ascii_text(s@) ==> r@ == ascii_lower(s@),
{
    let st: String = s.iter().collect();
    st.to_lowercase().chars().collect()
}

// ---------------------------------------------------------------------------
// Pattern search and splitting
// ---------------------------------------------------------------------------

pub open spec fn matches_at(s: Seq<char>, i: int, p: Seq<char>) -> bool {
    0 <= i && i + p.len() <= s.len() && s.subrange(i, i + p.len()) == p
}

/// Leftmost occurrence of `p` in `s` at or after `i`.
pub open spec fn find_from(s: Seq<char>, p: Seq<char>, i: int) -> Option<int>
    decreases s.len() + 1 - i,
{
    if i < 0 || i + p.len() > s.len() {
        None
    } else if s.subrange(i, i + p.len()) == p {
        Some(i)
    } else {
        find_from(s, p, i + 1)
    }
}

pub open spec fn find(s: Seq<char>, p: Seq<char>) -> Option<int> {
    find_from(s, p, 0)
}

/// `str::contains` with a string or character pattern.
pub open spec fn contains(s: Seq<char>, p: Seq<char>) -> bool {
    find(s, p) is Some
}

pub proof fn lemma_find_from_range(s: Seq<char>, p: Seq<char>, i: int)
    requires
        0 <= i,
    ensures
        find_from(s, p, i) matches Some(k) ==> i <= k && matches_at(s, k, p) && (forall|j: int|
            i <= j < k ==> !matches_at(s, j, p)),
        find_from(s, p, i) is None ==> (forall|j: int| i <= j ==> !matches_at(s, j, p)),
    decreases s.len() + 1 - i,
{
    if i + p.len() > s.len() {
    } else if s.subrange(i, i + p.len()) == p {
    } else {
        lemma_find_from_range(s, p, i + 1);
    }
}

/// Pieces of `s` between non-overlapping occurrences of `p`, found left to
/// right, as `str::split` yields them.
pub open spec fn split(s: Seq<char>, p: Seq<char>) -> Seq<Seq<char>>
    decreases s.len(),
{
    if p.len() == 0 {
        seq![s]
    } else {
        match find(s, p) {
            None => seq![s],
            Some(k) => if 0 <= k && k + p.len() <= s.len() {
                seq![s.take(k)] + split(s.skip(k + p.len()), p)
            } else {
                seq![s]
            },
        }
    }
}


/// Whether `p` occurs in `s` at position `start`.
pub fn matches_range(s: &Vec<char>, start: usize, p: &Vec<char>) -> (r: bool)
    requires
        start + p.len() <= s.len(),
    ensures
        r == (s@.subrange(start as int, start + p.len()) == p@),
{
    let mut j: usize = 0;
    while j < p.len()
        invariant
            start + p.len() <= s.len(),
            j <= p.len(),
            forall|k: int| 0 <= k < j ==> s@[start + k] == p@[k],
        decreases p.len() - j,
    {
        if s[start + j] != p[j] {
            assert(s@.subrange(start as int, start + p.len())[j as int] != p@[j as int]);
            return false;
        }
        j = j + 1;
    }
    assert(s@.subrange(start as int, start + p.len()) =~= p@);
    true
}

/// Leftmost occurrence of `p` in `s[lo..hi]`, as an index into `s`.
pub fn find_in(s: &Vec<char>, lo: usize, hi: usize, p: &Vec<char>) -> (r: Option<usize>)
    requires
        lo <= hi <= s.len(),
        p.len() > 0,
    ensures
        r is None <==> find(s@.subrange(lo as int, hi as int), p@) is None,
        r matches Some(k) ==> lo <= k && k + p.len() <= hi && find(
            s@.subrange(lo as int, hi as int),
            p@,
        ) == Some(k - lo),
{
    let ghost sub = s@.subrange(lo as int, hi as int);
    if p.len() > hi - lo {
        return None;
    }
    let last = hi - p.len();
    let mut i = lo;
    while i <= last
        invariant
            lo <= i <= last + 1,
            last + p.len() == hi,
            hi <= s.len(),
            sub == s@.subrange(lo as int, hi as int),
            p.len() > 0,
            find(sub, p@) == find_from(sub, p@, i - lo),
        decreases last + 1 - i,
    {
        let m = matches_range(s, i, p);
        assert(sub.subrange(i - lo, i - lo + p.len()) =~= s@.subrange(i as int, i + p.len()));
        if m {
            return Some(i);
        }
        i = i + 1;
    }
    None
}

/// The pieces of `s` that a list of ranges into `s` denotes.
pub open spec fn pieces(s: Seq<char>, ranges: Seq<(usize, usize)>) -> Seq<Seq<char>> {
    ranges.map_values(|r: (usize, usize)| s.subrange(r.0 as int, r.1 as int))
}

/// `str::split` of `s[lo..hi]` by the non-empty pattern `p`, as ranges
/// into `s`.
pub fn split_ranges(s: &Vec<char>, lo: usize, hi: usize, p: &Vec<char>) -> (r: Vec<(usize, usize)>)
    requires
        lo <= hi <= s.len(),
        p.len() > 0,
    ensures
        pieces(s@, r@) == split(s@.subrange(lo as int, hi as int), p@),
        forall|i: int| 0 <= i < r.len() ==> lo <= (#[trigger] r@[i]).0 <= r@[i].1 <= hi,
        r.len() >= 1,
{
    let mut out: Vec<(usize, usize)> = Vec::new();
    let mut cur = lo;
    loop
        invariant
            lo <= cur <= hi <= s.len(),
            p.len() > 0,
            split(s@.subrange(lo as int, hi as int), p@) == pieces(s@, out@) + split(
                s@.subrange(cur as int, hi as int),
                p@,
            ),
            forall|i: int| 0 <= i < out.len() ==> lo <= (#[trigger] out@[i]).0 <= out@[i].1 <= hi,
        decreases hi - cur,
    {
        let ghost sub = s@.subrange(cur as int, hi as int);
        match find_in(s, cur, hi, p) {
            None => {
                out.push((cur, hi));
                assert(pieces(s@, out@) =~= pieces(s@, out@.drop_last()) + seq![sub]);
                assert(split(sub, p@) == seq![sub]);
                return out;
            },
            Some(k) => {
                let ghost before = out@;
                assert(find(sub, p@) == Some(k - cur));
                assert(0 <= k - cur && k - cur + p.len() <= sub.len());
                assert(split(sub, p@) == seq![sub.take(k - cur)] + split(sub.skip(k - cur + p.len()), p@));
                out.push((cur, k));
                assert(sub.take(k - cur) =~= s@.subrange(cur as int, k as int));
                assert(sub.skip(k - cur + p.len()) =~= s@.subrange(k + p.len(), hi as int));
                assert(pieces(s@, out@) =~= pieces(s@, before) + seq![
                    s@.subrange(cur as int, k as int),
                ]);
                assert(split(sub, p@) == seq![s@.subrange(cur as int, k as int)] + split(
                    s@.subrange(k + p.len(), hi as int),
                    p@,
                ));
                assert(pieces(s@, before) + split(sub, p@) =~= pieces(s@, out@) + split(
                    s@.subrange(k + p.len(), hi as int),
                    p@,
                ));
                cur = k + p.len();
            },
        }
    }
}


// ---------------------------------------------------------------------------
// Integer parsing
// ---------------------------------------------------------------------------

/// Why a string is not an integer, as std's `IntErrorKind` reports it.
#[derive(Clone, Copy, Debug, PartialEq, Eq, Structural)]
pub enum IntErrorKind {
    Empty,
    InvalidDigit,
    PosOverflow,
    NegOverflow,
}

pub open spec fn is_dec_digit(c: char) -> bool {
    '0' <= c && c <= '9'
}

pub open spec fn digit_value(c: char) -> int {
    (c as u32) as int - 48
}

/// Reads the decimal digits of `d` left to right into a non-negative value,
/// failing at the first non-digit or at the first prefix above `max`.
pub open spec fn accumulate_up(d: Seq<char>, max: int) -> Result<int, IntErrorKind>
    decreases d.len(),
{
    if d.len() == 0 {
        Ok(0)
    } else {
        match accumulate_up(d.drop_last(), max) {
            Err(e) => Err(e),
            Ok(a) => if !is_dec_digit(d.last()) {
                Err(IntErrorKind::InvalidDigit)
            } else if a * 10 + digit_value(d.last()) > max {
                Err(IntErrorKind::PosOverflow)
            } else {
                Ok(a * 10 + digit_value(d.last()))
            },
        }
    }
}

/// Reads the decimal digits of `d` left to right into a non-positive value,
/// failing at the first non-digit or at the first prefix below `min`.
pub open spec fn accumulate_down(d: Seq<char>, min: int) -> Result<int, IntErrorKind>
    decreases d.len(),
{
    if d.len() == 0 {
        Ok(0)
    } else {
        match accumulate_down(d.drop_last(), min) {
            Err(e) => Err(e),
            Ok(a) => if !is_dec_digit(d.last()) {
                Err(IntErrorKind::InvalidDigit)
            } else if a * 10 - digit_value(d.last()) < min {
                Err(IntErrorKind::NegOverflow)
            } else {
                Ok(a * 10 - digit_value(d.last()))
            },
        }
    }
}

/// `FromStr` for an integer type whose range is `min..=max` (signed exactly
/// when `min < 0`): an optional sign, then decimal digits only.
pub open spec fn parse_int(s: Seq<char>, min: int, max: int) -> Result<int, IntErrorKind> {
    if s.len() == 0 {
        Err(IntErrorKind::Empty)
    } else if s.len() == 1 && (s[0] == '+' || s[0] == '-') {
        Err(IntErrorKind::InvalidDigit)
    } else if s[0] == '+' {
        accumulate_up(s.drop_first(), max)
    } else if s[0] == '-' && min < 0 {
        accumulate_down(s.drop_first(), min)
    } else {
        accumulate_up(s, max)
    }
}

/// A failure on a prefix is the failure of the whole string.
proof fn lemma_accumulate_up_prefix_err(d: Seq<char>, k: int, max: int)
    requires
        0 <= k <= d.len(),
        accumulate_up(d.take(k), max) is Err,
    ensures
        accumulate_up(d, max) == accumulate_up(d.take(k), max),
    decreases d.len(),
{
    if k < d.len() {
        assert(d.drop_last().take(k) =~= d.take(k));
        lemma_accumulate_up_prefix_err(d.drop_last(), k, max);
    } else {
        assert(d.take(k) =~= d);
    }
}

proof fn lemma_accumulate_down_prefix_err(d: Seq<char>, k: int, min: int)
    requires
        0 <= k <= d.len(),
        accumulate_down(d.take(k), min) is Err,
    ensures
        accumulate_down(d, min) == accumulate_down(d.take(k), min),
    decreases d.len(),
{
    if k < d.len() {
        assert(d.drop_last().take(k) =~= d.take(k));
        lemma_accumulate_down_prefix_err(d.drop_last(), k, min);
    } else {
        assert(d.take(k) =~= d);
    }
}

proof fn lemma_accumulate_up_bounds(d: Seq<char>, max: int)
    requires
        max >= 0,
    ensures
        accumulate_up(d, max) matches Ok(v) ==> 0 <= v <= max,
    decreases d.len(),
{
    if d.len() > 0 {
        lemma_accumulate_up_bounds(d.drop_last(), max);
    }
}

proof fn lemma_accumulate_down_bounds(d: Seq<char>, min: int)
    requires
        min <= 0,
    ensures
        accumulate_down(d, min) matches Ok(v) ==> min <= v <= 0,
    decreases d.len(),
{
    if d.len() > 0 {
        lemma_accumulate_down_bounds(d.drop_last(), min);
    }
}

pub proof fn lemma_parse_int_bounds(s: Seq<char>, min: int, max: int)
    requires
        min <= 0 <= max,
    ensures
        parse_int(s, min, max) matches Ok(v) ==> min <= v <= max,
{
    lemma_accumulate_up_bounds(s, max);
    if s.len() > 0 {
        lemma_accumulate_up_bounds(s.drop_first(), max);
        lemma_accumulate_down_bounds(s.drop_first(), min);
    }
}

fn accumulate_up_range(s: &Vec<char>, lo: usize, hi: usize, max: i128) -> (r: Result<
    i128,
    IntErrorKind,
>)
    requires
        lo <= hi <= s.len(),
        0 <= max < 0x1_0000_0000_0000_0000_0000,
    ensures
        match r {
            Ok(v) => accumulate_up(s@.subrange(lo as int, hi as int), max as int) == Ok::<int, IntErrorKind>(v as int),
            Err(e) => accumulate_up(s@.subrange(lo as int, hi as int), max as int) == Err::<
                int,
                IntErrorKind,
            >(e),
        },
{
    let mut acc: i128 = 0;
    let mut i = lo;
    assert(s@.subrange(lo as int, lo as int) =~= Seq::<char>::empty());
    while i < hi
        invariant
            lo <= i <= hi <= s.len(),
            0 <= max < 0x1_0000_0000_0000_0000_0000,
            0 <= acc <= max,
            accumulate_up(s@.subrange(lo as int, i as int), max as int) == Ok::<int, IntErrorKind>(
                acc as int,
            ),
        decreases hi - i,
    {
        let c = s[i];
        assert(s@.subrange(lo as int, i + 1).drop_last() =~= s@.subrange(lo as int, i as int));
        let ghost whole = s@.subrange(lo as int, hi as int);
        assert(whole.take(i + 1 - lo) =~= s@.subrange(lo as int, i + 1));
        if !('0' <= c && c <= '9') {
            proof {
                lemma_accumulate_up_prefix_err(whole, i + 1 - lo, max as int);
            }
            return Err(IntErrorKind::InvalidDigit);
        }
        let d = (c as u32 - 48) as i128;
        let next = acc * 10 + d;
        if next > max {
            proof {
                lemma_accumulate_up_prefix_err(whole, i + 1 - lo, max as int);
            }
            return Err(IntErrorKind::PosOverflow);
        }
        acc = next;
        i = i + 1;
    }
    Ok(acc)
}

fn accumulate_down_range(s: &Vec<char>, lo: usize, hi: usize, min: i128) -> (r: Result<
    i128,
    IntErrorKind,
>)
    requires
        lo <= hi <= s.len(),
        -0x1_0000_0000_0000_0000_0000 < min <= 0,
    ensures
        match r {
            Ok(v) => accumulate_down(s@.subrange(lo as int, hi as int), min as int) == Ok::<int, IntErrorKind>(
                v as int,
            ),
            Err(e) => accumulate_down(s@.subrange(lo as int, hi as int), min as int) == Err::<
                int,
                IntErrorKind,
            >(e),
        },
{
    let mut acc: i128 = 0;
    let mut i = lo;
    assert(s@.subrange(lo as int, lo as int) =~= Seq::<char>::empty());
    while i < hi
        invariant
            lo <= i <= hi <= s.len(),
            -0x1_0000_0000_0000_0000_0000 < min <= 0,
            min <= acc <= 0,
            accumulate_down(s@.subrange(lo as int, i as int), min as int) == Ok::<
                int,
                IntErrorKind,
            >(acc as int),
        decreases hi - i,
    {
        let c = s[i];
        assert(s@.subrange(lo as int, i + 1).drop_last() =~= s@.subrange(lo as int, i as int));
        let ghost whole = s@.subrange(lo as int, hi as int);
        assert(whole.take(i + 1 - lo) =~= s@.subrange(lo as int, i + 1));
        if !('0' <= c && c <= '9') {
            proof {
                lemma_accumulate_down_prefix_err(whole, i + 1 - lo, min as int);
            }
            return Err(IntErrorKind::InvalidDigit);
        }
        let d = (c as u32 - 48) as i128;
        let next = acc * 10 - d;
        if next < min {
            proof {
                lemma_accumulate_down_prefix_err(whole, i + 1 - lo, min as int);
            }
            return Err(IntErrorKind::NegOverflow);
        }
        acc = next;
        i = i + 1;
    }
    Ok(acc)
}

/// Parses `s[lo..hi]` as an integer of range `min..=max`, with the rules of
/// `parse_int`.
pub fn parse_int_range(s: &Vec<char>, lo: usize, hi: usize, min: i128, max: i128) -> (r: Result<
    i128,
    IntErrorKind,
>)
    requires
        lo <= hi <= s.len(),
        -0x1_0000_0000_0000_0000_0000 < min <= 0 <= max < 0x1_0000_0000_0000_0000_0000,
    ensures
        match r {
            Ok(v) => parse_int(s@.subrange(lo as int, hi as int), min as int, max as int) == Ok::<int, IntErrorKind>(
                v as int,
            ) && min <= v <= max,
            Err(e) => parse_int(s@.subrange(lo as int, hi as int), min as int, max as int) == Err::<
                int,
                IntErrorKind,
            >(e),
        },
{
    let ghost sub = s@.subrange(lo as int, hi as int);
    proof {
        lemma_parse_int_bounds(sub, min as int, max as int);
    }
    if lo == hi {
        return Err(IntErrorKind::Empty);
    }
    let first = s[lo];
    if hi - lo == 1 && (first == '+' || first == '-') {
        return Err(IntErrorKind::InvalidDigit);
    }
    assert(sub.drop_first() =~= s@.subrange(lo + 1, hi as int));
    if first == '+' {
        accumulate_up_range(s, lo + 1, hi, max)
    } else if first == '-' && min < 0 {
        accumulate_down_range(s, lo + 1, hi, min)
    } else {
        accumulate_up_range(s, lo, hi, max)
    }
}

// ---------------------------------------------------------------------------
// Decimal formatting
// ---------------------------------------------------------------------------

/// The decimal digit character for `0 <= d <= 9`.
pub open spec fn digit_char(d: int) -> char {
    if d == 0 {
        '0'
    } else if d == 1 {
        '1'
    } else if d == 2 {
        '2'
    } else if d == 3 {
        '3'
    } else if d == 4 {
        '4'
    } else if d == 5 {
        '5'
    } else if d == 6 {
        '6'
    } else if d == 7 {
        '7'
    } else if d == 8 {
        '8'
    } else {
        '9'
    }
}

fn digit_to_char(d: u64) -> (c: char)
    requires
        d < 10,
    ensures
        c == digit_char(d as int),
{
    if d == 0 {
        '0'
    } else if d == 1 {
        '1'
    } else if d == 2 {
        '2'
    } else if d == 3 {
        '3'
    } else if d == 4 {
        '4'
    } else if d == 5 {
        '5'
    } else if d == 6 {
        '6'
    } else if d == 7 {
        '7'
    } else if d == 8 {
        '8'
    } else {
        '9'
    }
}

/// The decimal digits of `n`, most significant first, as `{}` prints them.
pub open spec fn dec_digits(n: nat) -> Seq<char>
    decreases n,
{
    if n < 10 {
        seq![digit_char(n as int)]
    } else {
        dec_digits(n / 10).push(digit_char((n % 10) as int))
    }
}

/// `s` with zeros in front up to `width` characters, as `{:0width}` pads.
pub open spec fn zero_pad(s: Seq<char>, width: nat) -> Seq<char> {
    if s.len() < width {
        Seq::new((width - s.len()) as nat, |i: int| '0') + s
    } else {
        s
    }
}

/// A signed integer as `{}` prints it.
pub open spec fn fmt_int(i: int) -> Seq<char> {
    if i < 0 {
        seq!['-'] + dec_digits((-i) as nat)
    } else {
        dec_digits(i as nat)
    }
}

/// Appends `n` in decimal, zero-padded to `width` characters.
pub fn push_decimal(out: &mut Vec<char>, n: u64, width: usize)
    ensures
        final(out)@ == old(out)@ + zero_pad(dec_digits(n as nat), width as nat),
{
    let mut digits: Vec<char> = Vec::new();
    let mut cur = n;
    while cur >= 10
        invariant
            dec_digits(n as nat) == dec_digits(cur as nat) + digits@,
        decreases cur,
    {
        let c = digit_to_char(cur % 10);
        let ghost before = digits@;
        digits.insert(0, c);
        assert(dec_digits(cur as nat) == dec_digits((cur / 10) as nat).push(
            digit_char((cur % 10) as int),
        ));
        assert(dec_digits(cur as nat) + before =~= dec_digits((cur / 10) as nat)
            + digits@) by {
            assert(digits@ =~= seq![c] + before);
        }
        cur = cur / 10;
    }
    let c = digit_to_char(cur);
    digits.insert(0, c);
    let ghost ds = digits@;
    assert(ds == dec_digits(n as nat));
    let len = digits.len();
    let mut k = len;
    let ghost start = out@;
    while k < width
        invariant
            out@ == start + Seq::new((k - len) as nat, |i: int| '0'),
            len <= k,
            k <= width || k == len,
        decreases width - k,
    {
        out.push('0');
        assert(out@ =~= start + Seq::new((k + 1 - len) as nat, |i: int| '0'));
        k = k + 1;
    }
    let ghost padded = out@;
    let mut j: usize = 0;
    while j < len
        invariant
            len == digits.len(),
            digits@ == ds,
            out@ == padded + ds.take(j as int),
            j <= len,
        decreases len - j,
    {
        out.push(digits[j]);
        assert(ds.take(j + 1) =~= ds.take(j as int).push(ds[j as int]));
        j = j + 1;
    }
    assert(ds.take(len as int) =~= ds);
    if len < width {
        assert(out@ =~= start + zero_pad(ds, width as nat));
    } else {
        assert(Seq::new((k - len) as nat, |i: int| '0') =~= Seq::<char>::empty());
        assert(out@ =~= start + zero_pad(ds, width as nat));
    }
}

/// Appends `i` as `{}` prints a signed integer.
pub fn push_signed(out: &mut Vec<char>, i: i64)
    ensures
        final(out)@ == old(out)@ + fmt_int(i as int),
{
    if i < 0 {
        out.push('-');
        let ghost mid = out@;
        let m: u64 = if i == i64::MIN {
            0x8000_0000_0000_0000u64
        } else {
            (-i) as u64
        };
        push_decimal(out, m, 0);
        assert(zero_pad(dec_digits(m as nat), 0) == dec_digits(m as nat));
        assert(out@ =~= old(out)@ + fmt_int(i as int));
    } else {
        push_decimal(out, i as u64, 0);
        assert(zero_pad(dec_digits(i as nat), 0) == dec_digits(i as nat));
    }
}


/// Whether `a[lo..hi]` is exactly `b`.
pub fn range_equals(a: &Vec<char>, lo: usize, hi: usize, b: &Vec<char>) -> (r: bool)
    requires
        lo <= hi <= a.len(),
    ensures
        r == (a@.subrange(lo as int, hi as int) == b@),
{
    if hi - lo != b.len() {
        return false;
    }
    matches_range(a, lo, b)
}

/// A copy of `s[lo..hi]`.
pub fn copy_range(s: &Vec<char>, lo: usize, hi: usize) -> (r: Vec<char>)
    requires
        lo <= hi <= s.len(),
    ensures
        r@ == s@.subrange(lo as int, hi as int),
{
    let mut out: Vec<char> = Vec::new();
    let mut i = lo;
    while i < hi
        invariant
            lo <= i <= hi <= s.len(),
            out@ == s@.subrange(lo as int, i as int),
        decreases hi - i,
    {
        out.push(s[i]);
        assert(out@ =~= s@.subrange(lo as int, i + 1));
        i = i + 1;
    }
    out
}

/// Appends all of `b` to `out`.
pub fn push_all(out: &mut Vec<char>, b: &Vec<char>)
    ensures
        final(out)@ == old(out)@ + b@,
{
    let ghost start = out@;
    let mut i: usize = 0;
    while i < b.len()
        invariant
            i <= b.len(),
            out@ == start + b@.take(i as int),
        decreases b.len() - i,
    {
        out.push(b[i]);
        assert(b@.take(i + 1) =~= b@.take(i as int).push(b@[i as int]));
        i = i + 1;
    }
    assert(b@.take(b.len() as int) =~= b@);
}

/// A `String` holding `s[lo..hi]`.
pub fn string_of_range(s: &Vec<char>, lo: usize, hi: usize) -> (r: String)
    requires
        lo <= hi <= s.len(),
    ensures
        r@ == s@.subrange(lo as int, hi as int),
{
    let v = copy_range(s, lo, hi);
    string_from_chars(&v)
}

/// `s` without surrounding whitespace.
pub fn trimmed(s: &str) -> (r: String)
    ensures
        r@ == trim(s@),
{
    let c = chars_of(s);
    let (a, b) = trim_range(&c, 0, c.len());
    assert(c@.subrange(0, c.len() as int) =~= c@);
    string_of_range(&c, a, b)
}

/// `a` followed by `b`.
pub fn concat_str(a: &str, b: &str) -> (r: String)
    ensures
        r@ == a@ + b@,
{
    let mut out = chars_of(a);
    let t = chars_of(b);
    push_all(&mut out, &t);
    string_from_chars(&out)
}

/// Whether `s` is empty or only whitespace.
pub fn is_blank(s: &str) -> (r: bool)
    ensures
        r == (trim(s@).len() == 0),
{
    let c = chars_of(s);
    let (a, b) = trim_range(&c, 0, c.len());
    assert(c@.subrange(0, c.len() as int) =~= c@);
    a == b
}

// ---------------------------------------------------------------------------
// Reading back what was written
// ---------------------------------------------------------------------------

/// Trimming leaves a string that starts and ends with non-whitespace.
pub proof fn lemma_trim_of_trimmed(s: Seq<char>)
    requires
        s.len() > 0,
        !is_white_space(s[0]),
        !is_white_space(s.last()),
    ensures
        trim(s) == s,
{
}

proof fn lemma_matches_one(s: Seq<char>, j: int, c: char)
    ensures
        matches_at(s, j, seq![c]) <==> (0 <= j < s.len() && s[j] == c),
{
    if 0 <= j < s.len() {
        assert(s.subrange(j, j + 1)[0] == s[j]);
        if s[j] == c {
            assert(s.subrange(j, j + 1) =~= seq![c]);
        }
    }
}

/// Splitting at a one-character separator, a text followed by the
/// separator and a last piece that holds no separator gives the pieces of
/// the text and then that last piece.
pub proof fn lemma_split_append(a: Seq<char>, c: char, b: Seq<char>)
    requires
        !contains(b, seq![c]),
    ensures
        split(a + seq![c] + b, seq![c]) == split(a, seq![c]).push(b),
    decreases a.len(),
{
    let p = seq![c];
    let s = a + p + b;
    lemma_find_from_range(a, p, 0);
    lemma_find_from_range(b, p, 0);
    assert(split(b, p) == seq![b]);
    match find(a, p) {
        None => {
            assert forall|j: int| 0 <= j < a.len() implies !matches_at(#[trigger] (a + p + b), j, p) by {
                lemma_matches_one(a + p + b, j, c);
                lemma_matches_one(a, j, c);
                assert((a + p + b)[j] == a[j]);
            }
            lemma_find_after(a, p, b);
            assert(s.take(a.len() as int) =~= a);
            assert(s.skip(a.len() as int + 1) =~= b);
            assert(split(a, p) == seq![a]);
            assert(split(s, p) =~= seq![a, b]);
        },
        Some(k) => {
            let x = a.take(k);
            let a1 = a.skip(k + 1);
            let rest = a1 + p + b;
            assert(a =~= x + p + a1) by {
                lemma_matches_one(a, k, c);
            }
            assert(s =~= x + p + rest);
            assert forall|j: int| 0 <= j < x.len() implies !matches_at(#[trigger] (x + p + rest), j, p) by {
                lemma_matches_one(x + p + rest, j, c);
                lemma_matches_one(a, j, c);
                assert((x + p + rest)[j] == a[j]);
            }
            lemma_find_after(x, p, rest);
            assert(s.take(k) =~= x);
            assert(s.skip(k + 1) =~= rest);
            lemma_split_append(a1, c, b);
            assert(split(a, p) == seq![x] + split(a1, p));
            assert(split(s, p) == seq![x] + split(rest, p));
            assert((seq![x] + split(a1, p)).push(b) =~= seq![x] + split(a1, p).push(b));
        },
    }
}

/// Whether every character of `w` is whitespace.
pub open spec fn all_white_space(w: Seq<char>) -> bool {
    forall|i: int| 0 <= i < w.len() ==> is_white_space(#[trigger] w[i])
}

proof fn lemma_trim_front_padding(w: Seq<char>, s: Seq<char>)
    requires
        all_white_space(w),
        s.len() > 0,
        !is_white_space(s[0]),
    ensures
        trim_front(w + s) == s,
    decreases w.len(),
{
    if w.len() > 0 {
        assert((w + s).drop_first() =~= w.drop_first() + s);
        lemma_trim_front_padding(w.drop_first(), s);
    } else {
        assert(w + s =~= s);
    }
}

proof fn lemma_trim_back_padding(s: Seq<char>, w: Seq<char>)
    requires
        all_white_space(w),
        s.len() > 0,
        !is_white_space(s.last()),
    ensures
        trim_back(s + w) == s,
    decreases w.len(),
{
    if w.len() > 0 {
        assert((s + w).drop_last() =~= s + w.drop_last());
        lemma_trim_back_padding(s, w.drop_last());
    } else {
        assert(s + w =~= s);
    }
}

/// Trimming removes exactly the whitespace around a text that neither
/// starts nor ends with whitespace.
pub proof fn lemma_trim_padding(w1: Seq<char>, s: Seq<char>, w2: Seq<char>)
    requires
        all_white_space(w1),
        all_white_space(w2),
        s.len() > 0,
        !is_white_space(s[0]),
        !is_white_space(s.last()),
    ensures
        trim(w1 + s + w2) == s,
{
    assert(w1 + s + w2 =~= w1 + (s + w2));
    lemma_trim_front_padding(w1, s + w2);
    assert((s + w2).last() == s.last() || w2.len() > 0);
    lemma_trim_back_padding(s, w2);
}

/// Decimal digits are digit characters and read back as the number.
pub proof fn lemma_dec_digits_read(n: nat, max: int)
    requires
        n <= max,
    ensures
        dec_digits(n).len() > 0,
        forall|i: int| 0 <= i < dec_digits(n).len() ==> is_dec_digit(#[trigger] dec_digits(n)[i]),
        accumulate_up(dec_digits(n), max) == Ok::<int, IntErrorKind>(n as int),
        accumulate_down(dec_digits(n), -max) == Ok::<int, IntErrorKind>(-(n as int)),
    decreases n,
{
    let d = dec_digits(n);
    if n < 10 {
        let c = digit_char(n as int);
        assert(d == seq![c]);
        assert(is_dec_digit(c) && digit_value(c) == n);
        assert(d.drop_last() =~= Seq::<char>::empty());
        reveal_with_fuel(accumulate_up, 2);
        reveal_with_fuel(accumulate_down, 2);
    } else {
        lemma_dec_digits_read(n / 10, max);
        let q = dec_digits(n / 10);
        let c = digit_char((n % 10) as int);
        assert(d == q.push(c));
        assert(d.drop_last() =~= q);
        assert(d.last() == c);
        assert(is_dec_digit(c) && digit_value(c) == n % 10);
        assert((n / 10) * 10 + n % 10 == n);
        assert forall|i: int| 0 <= i < d.len() implies is_dec_digit(#[trigger] d[i]) by {
            if i < q.len() {
                assert(d[i] == q[i]);
            }
        }
    }
}

/// A number written in decimal reads back as itself.
pub proof fn lemma_fmt_int_read(i: int, min: int, max: int)
    requires
        min <= i <= max,
        i < 0 ==> min < 0,
    ensures
        parse_int(fmt_int(i), min, max) == Ok::<int, IntErrorKind>(i),
        fmt_int(i).len() > 0,
        !is_white_space(fmt_int(i)[0]),
        !is_white_space(fmt_int(i).last()),
        is_dec_digit(fmt_int(i).last()),
        fmt_int(i)[0] == '-' || is_dec_digit(fmt_int(i)[0]),
        forall|k: int| 0 <= k < fmt_int(i).len() ==> (#[trigger] fmt_int(i)[k] == '-' && k == 0)
            || is_dec_digit(fmt_int(i)[k]),
{
    if i < 0 {
        let k = (-i) as nat;
        lemma_dec_digits_read(k, -min);
        let d = dec_digits(k);
        let s = fmt_int(i);
        assert(s == seq!['-'] + d);
        assert(s.drop_first() =~= d);
        assert(s.last() == d.last());
        assert forall|j: int| 0 <= j < s.len() implies (#[trigger] s[j] == '-' && j == 0)
            || is_dec_digit(s[j]) by {
            if j > 0 {
                assert(s[j] == d[j - 1]);
            }
        }
    } else {
        lemma_dec_digits_read(i as nat, max);
    }
}

/// The first occurrence of `p` in `a + p + b` is right after `a` when none
/// starts inside `a`.
pub proof fn lemma_find_after(a: Seq<char>, p: Seq<char>, b: Seq<char>)
    requires
        p.len() > 0,
        forall|j: int| 0 <= j < a.len() ==> !matches_at(#[trigger] (a + p + b), j, p),
    ensures
        find(a + p + b, p) == Some(a.len() as int),
{
    let s = a + p + b;
    assert(s.subrange(a.len() as int, (a.len() + p.len()) as int) =~= p);
    lemma_find_from_range(s, p, 0);
    match find(s, p) {
        Some(k) => {
            if k < a.len() {
                assert(!matches_at(s, k, p));
            }
            if k > a.len() {
                assert(matches_at(s, a.len() as int, p));
            }
        },
        None => {
            assert(matches_at(s, a.len() as int, p));
        },
    }
}

/// A string without the first character of `p` does not contain `p`.
pub proof fn lemma_absent_first_char(s: Seq<char>, p: Seq<char>)
    requires
        p.len() > 0,
        forall|j: int| 0 <= j < s.len() ==> #[trigger] s[j] != p[0],
    ensures
        find(s, p) is None,
        !contains(s, p),
{
    lemma_find_from_range(s, p, 0);
    if find(s, p) is Some {
        let k = find(s, p)->0;
        assert(s.subrange(k, k + p.len())[0] == s[k]);
    }
}

/// Splitting `a + p + b` at `p` gives `a` and `b` when `p` starts nowhere
/// inside `a` and does not occur in `b`.
pub proof fn lemma_split_two(a: Seq<char>, p: Seq<char>, b: Seq<char>)
    requires
        p.len() > 0,
        forall|j: int| 0 <= j < a.len() ==> !matches_at(#[trigger] (a + p + b), j, p),
        !contains(b, p),
    ensures
        contains(a + p + b, p),
        split(a + p + b, p) == seq![a, b],
{
    let s = a + p + b;
    lemma_find_after(a, p, b);
    assert(s.take(a.len() as int) =~= a);
    assert(s.skip((a.len() + p.len()) as int) =~= b);
    assert(split(b, p) == seq![b]);
    assert(split(s, p) =~= seq![a] + seq![b]);
}

/// No occurrence of `p` starts inside a string none of whose characters is
/// `p`'s first.
pub proof fn lemma_no_start_inside(a: Seq<char>, p: Seq<char>, b: Seq<char>)
    requires
        p.len() > 0,
        forall|j: int| 0 <= j < a.len() ==> #[trigger] a[j] != p[0],
    ensures
        forall|j: int| 0 <= j < a.len() ==> !matches_at(#[trigger] (a + p + b), j, p),
{
    assert forall|j: int| 0 <= j < a.len() implies !matches_at(#[trigger] (a + p + b), j, p) by {
        if matches_at(a + p + b, j, p) {
            assert((a + p + b).subrange(j, j + p.len())[0] == (a + p + b)[j]);
            assert((a + p + b)[j] == a[j]);
        }
    }
}

} // verus!
