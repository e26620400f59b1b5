//! Reading note and velocity selections, as the sampling session takes
//! them: a single value, a comma-separated list, or a range (`C2..C6`,
//! `64..127`, or with a step, `127..1:8`).
//!
//! Each reader comes in two forms. The `try_` form returns `None` on the
//! inputs on which the reading cannot finish (the slicing of a note name
//! would split a character, an octave makes the note number overflow, or a
//! zero step would never end); the plain form requires an input that
//! finishes.

use vstd::prelude::*;
use crate::text::{
    chars_of, contains, copy_range, fmt_int, parse_int, parse_int_range, push_all, push_signed,
    split, split_ranges,
    str_to_uppercase, string_from_chars, string_of_range, to_uppercase, trim, trim_range,
    IntErrorKind, pieces, dec_digits, is_ascii_text, ascii_upper, is_dec_digit, lemma_dec_digits_read, lemma_fmt_int_read,
    lemma_split_two, lemma_no_start_inside, lemma_absent_first_char, lemma_find_after,
    all_white_space, is_white_space, lemma_trim_padding, lemma_split_append, lemma_trim_of_trimmed,
    lemma_find_from_range, matches_at,
};

verus! {

/// Why a note or velocity selection was rejected.
#[derive(Debug, Clone, PartialEq, Eq)]
pub enum ParseError {
    /// A range that does not split into exactly two ends; holds the
    /// trimmed input.
    InvalidNoteRange(String),
    /// A note whose octave is not an integer; holds the upper-cased name.
    InvalidOctave(String),
    /// A note letter (with accidental) that names no pitch.
    InvalidNoteName(String),
    /// A note number outside 0..=127.
    NoteOutOfRange(i32),
    /// A velocity range that does not split as `start..end:step`; holds the
    /// trimmed input.
    InvalidVelocityRange(String),
    /// A velocity that is not an integer in 0..=255.
    InvalidNumber(IntErrorKind),
}

pub enum ParseErrorView {
    InvalidNoteRange(Seq<char>),
    InvalidOctave(Seq<char>),
    InvalidNoteName(Seq<char>),
    NoteOutOfRange(int),
    InvalidVelocityRange(Seq<char>),
    InvalidNumber(IntErrorKind),
}

impl View for ParseError {
    type V = ParseErrorView;

    open spec fn view(&self) -> ParseErrorView {
        match self {
            ParseError::InvalidNoteRange(s) => ParseErrorView::InvalidNoteRange(s@),
            ParseError::InvalidOctave(s) => ParseErrorView::InvalidOctave(s@),
            ParseError::InvalidNoteName(s) => ParseErrorView::InvalidNoteName(s@),
            ParseError::NoteOutOfRange(m) => ParseErrorView::NoteOutOfRange(*m as int),
            ParseError::InvalidVelocityRange(s) => ParseErrorView::InvalidVelocityRange(s@),
            ParseError::InvalidNumber(k) => ParseErrorView::InvalidNumber(*k),
        }
    }
}

/// The outcome of a reader as values: `None` where the reading does not
/// finish.
pub open spec fn outcome_view<T>(r: Option<Result<T, ParseError>>) -> Option<
    Result<T, ParseErrorView>,
> {
    match r {
        None => None,
        Some(Ok(v)) => Some(Ok(v)),
        Some(Err(e)) => Some(Err(e@)),
    }
}

pub open spec fn list_outcome_view(r: Option<Result<Vec<u8>, ParseError>>) -> Option<
    Result<Seq<u8>, ParseErrorView>,
> {
    match r {
        None => None,
        Some(Ok(v)) => Some(Ok(v@)),
        Some(Err(e)) => Some(Err(e@)),
    }
}

pub open spec fn result_view(r: Result<Vec<u8>, ParseError>) -> Result<Seq<u8>, ParseErrorView> {
    match r {
        Ok(v) => Ok(v@),
        Err(e) => Err(e@),
    }
}

// ---------------------------------------------------------------------------
// Notes
// ---------------------------------------------------------------------------

/// How std describes why a string is not an integer.
pub open spec fn int_error_text(k: IntErrorKind) -> Seq<char> {
    match k {
        IntErrorKind::Empty => "cannot parse integer from empty string"@,
        IntErrorKind::InvalidDigit => "invalid digit found in string"@,
        IntErrorKind::PosOverflow => "number too large to fit in target type"@,
        IntErrorKind::NegOverflow => "number too small to fit in target type"@,
    }
}

/// The text of a rejection, as the session reports it.
pub open spec fn parse_error_text(e: ParseErrorView) -> Seq<char> {
    match e {
        ParseErrorView::InvalidNoteRange(s) => "Invalid note range format: "@ + s,
        ParseErrorView::InvalidOctave(s) => "Invalid octave in note: "@ + s,
        ParseErrorView::InvalidNoteName(s) => "Invalid note name: "@ + s,
        ParseErrorView::NoteOutOfRange(m) => "MIDI note out of range: "@ + fmt_int(m),
        ParseErrorView::InvalidVelocityRange(s) => "Invalid velocity range format: "@ + s,
        ParseErrorView::InvalidNumber(k) => int_error_text(k),
    }
}

impl ParseError {
    /// The text of this rejection.
    pub fn message(&self) -> (r: String)
        ensures
            r@ == parse_error_text(self@),
    {
        let (head, tail): (&str, &String) = match self {
            ParseError::InvalidNoteRange(s) => ("Invalid note range format: ", s),
            ParseError::InvalidOctave(s) => ("Invalid octave in note: ", s),
            ParseError::InvalidNoteName(s) => ("Invalid note name: ", s),
            ParseError::InvalidVelocityRange(s) => ("Invalid velocity range format: ", s),
            ParseError::NoteOutOfRange(m) => {
                let mut out = chars_of("MIDI note out of range: ");
                push_signed(&mut out, *m as i64);
                return string_from_chars(&out);
            },
            ParseError::InvalidNumber(k) => {
                return match k {
                    IntErrorKind::Empty => "cannot parse integer from empty string".to_owned(),
                    IntErrorKind::InvalidDigit => "invalid digit found in string".to_owned(),
                    IntErrorKind::PosOverflow => "number too large to fit in target type".to_owned(),
                    IntErrorKind::NegOverflow => "number too small to fit in target type".to_owned(),
                };
            },
        };
        let mut out = chars_of(head);
        let c = chars_of(tail.as_str());
        push_all(&mut out, &c);
        string_from_chars(&out)
    }
}

/// Bytes that `c` takes in UTF-8.
pub open spec fn char_width(c: char) -> int {
    let u = c as u32;
    if u < 0x80 {
        1
    } else if u < 0x800 {
        2
    } else if u < 0x10000 {
        3
    } else {
        4
    }
}

pub(crate) fn char_width_of(c: char) -> (r: usize)
    ensures
        r == char_width(c),
{
    let u = c as u32;
    if u < 0x80 {
        1
    } else if u < 0x800 {
        2
    } else if u < 0x10000 {
        3
    } else {
        4
    }
}

/// Pitch class of an upper-case note letter with optional accidental:
/// `C`=0 … `B`=11, sharps written `#` or `S`, flats `B`.
pub open spec fn pitch_of(n: Seq<char>) -> Option<int> {
    if n.len() == 1 {
        let c = n[0];
        if c == 'C' {
            Some(0)
        } else if c == 'D' {
            Some(2)
        } else if c == 'E' {
            Some(4)
        } else if c == 'F' {
            Some(5)
        } else if c == 'G' {
            Some(7)
        } else if c == 'A' {
            Some(9)
        } else if c == 'B' {
            Some(11)
        } else {
            None
        }
    } else if n.len() == 2 {
        let c = n[0];
        let sharp = n[1] == '#' || n[1] == 'S';
        let flat = n[1] == 'B';
        if c == 'C' && sharp || c == 'D' && flat {
            Some(1)
        } else if c == 'D' && sharp || c == 'E' && flat {
            Some(3)
        } else if c == 'F' && sharp || c == 'G' && flat {
            Some(6)
        } else if c == 'G' && sharp || c == 'A' && flat {
            Some(8)
        } else if c == 'A' && sharp || c == 'B' && flat {
            Some(10)
        } else {
            None
        }
    } else {
        None
    }
}

fn pitch_in(u: &Vec<char>, cut: usize) -> (r: Option<i128>)
    requires
        1 <= cut <= 2,
        cut <= u.len(),
    ensures
        match pitch_of(u@.take(cut as int)) {
            Some(p) => r == Some(p as i128),
            None => r is None,
        },
{
    let c0 = u[0];
    let ghost n = u@.take(cut as int);
    if cut == 1 {
        assert(n =~= seq![c0]);
        let p: i128 = if c0 == 'C' {
            0
        } else if c0 == 'D' {
            2
        } else if c0 == 'E' {
            4
        } else if c0 == 'F' {
            5
        } else if c0 == 'G' {
            7
        } else if c0 == 'A' {
            9
        } else if c0 == 'B' {
            11
        } else {
            return None;
        };
        Some(p)
    } else {
        let c1 = u[1];
        assert(n =~= seq![c0, c1]);
        let sharp = c1 == '#' || c1 == 'S';
        let flat = c1 == 'B';
        let p: i128 = if c0 == 'C' && sharp {
            1
        } else if c0 == 'D' && flat {
            1
        } else if c0 == 'D' && sharp {
            3
        } else if c0 == 'E' && flat {
            3
        } else if c0 == 'F' && sharp {
            6
        } else if c0 == 'G' && flat {
            6
        } else if c0 == 'G' && sharp {
            8
        } else if c0 == 'A' && flat {
            8
        } else if c0 == 'A' && sharp {
            10
        } else if c0 == 'B' && flat {
            10
        } else {
            return None;
        };
        Some(p)
    }
}

/// Reading an upper-cased, trimmed note name such as `C#4` or `A-1`: the
/// letter (and a `#` or `S` for sharp) is cut off by bytes, the rest is the
/// octave, and the note number is `(octave + 1) * 12 + pitch` in `i32`.
/// `None` where the byte cut splits a character or the arithmetic
/// overflows.
pub open spec fn upper_note_outcome(u: Seq<char>) -> Option<Result<u8, ParseErrorView>> {
    let two = u.len() >= 2 && (u[1] == '#' || u[1] == 'S');
    if u.len() == 0 {
        None
    } else if two && char_width(u[0]) > 2 {
        None
    } else if !two && char_width(u[0]) > 1 {
        None
    } else {
        let cut: int = if two && char_width(u[0]) == 1 {
            2
        } else {
            1
        };
        match parse_int(u.skip(cut), i32::MIN as int, i32::MAX as int) {
            Err(_) => Some(Err(ParseErrorView::InvalidOctave(u))),
            Ok(o) => match pitch_of(u.take(cut)) {
                None => Some(Err(ParseErrorView::InvalidNoteName(u.take(cut)))),
                Some(p) => {
                    let m = (o + 1) * 12 + p;
                    if o + 1 > i32::MAX || (o + 1) * 12 < i32::MIN || (o + 1) * 12 > i32::MAX
                        || m > i32::MAX {
                        None
                    } else if m < 0 || m > 127 {
                        Some(Err(ParseErrorView::NoteOutOfRange(m)))
                    } else {
                        Some(Ok(m as u8))
                    }
                },
            },
        }
    }
}

/// Reading a note name: trimmed, upper-cased, then read as above.
pub open spec fn note_name_outcome(name: Seq<char>) -> Option<Result<u8, ParseErrorView>> {
    upper_note_outcome(str_to_uppercase(trim(name)))
}

/// Reads an upper-cased, trimmed note name; `None` exactly where
/// `upper_note_outcome` is.
pub fn read_upper_note(u: &Vec<char>) -> (r: Option<Result<u8, ParseError>>)
    ensures
        outcome_view(r) == upper_note_outcome(u@),
{
    let n = u.len();
    if n == 0 {
        return None;
    }
    let c0 = u[0];
    let two = n >= 2 && (u[1] == '#' || u[1] == 'S');
    let w0 = char_width_of(c0);
    if two && w0 > 2 {
        return None;
    }
    if !two && w0 > 1 {
        return None;
    }
    let cut: usize = if two && w0 == 1 {
        2
    } else {
        1
    };
    assert(u@.subrange(cut as int, n as int) =~= u@.skip(cut as int));
    match parse_int_range(u, cut, n, -0x8000_0000, 0x7fff_ffff) {
        Err(_) => Some(Err(ParseError::InvalidOctave(string_from_chars(u)))),
        Ok(o) => match pitch_in(u, cut) {
            None => {
                assert(u@.subrange(0, cut as int) =~= u@.take(cut as int));
                Some(Err(ParseError::InvalidNoteName(string_of_range(u, 0, cut))))
            },
            Some(p) => {
                let o1 = o + 1;
                if o1 > 0x7fff_ffff {
                    return None;
                }
                let m1 = o1 * 12;
                if m1 < -0x8000_0000 || m1 > 0x7fff_ffff {
                    return None;
                }
                let m = m1 + p;
                if m > 0x7fff_ffff {
                    return None;
                }
                if m < 0 || m > 127 {
                    Some(Err(ParseError::NoteOutOfRange(m as i32)))
                } else {
                    Some(Ok(m as u8))
                }
            },
        },
    }
}

/// Reads the note name `s[lo..hi]`.
fn note_in_range(s: &Vec<char>, lo: usize, hi: usize) -> (r: Option<Result<u8, ParseError>>)
    requires
        lo <= hi <= s.len(),
    ensures
        outcome_view(r) == note_name_outcome(s@.subrange(lo as int, hi as int)),
        is_ascii_text(trim(s@.subrange(lo as int, hi as int))) ==> outcome_view(r)
            == upper_note_outcome(ascii_upper(trim(s@.subrange(lo as int, hi as int)))),
{
    let (a, b) = trim_range(s, lo, hi);
    let trimmed = copy_range(s, a, b);
    let upper = to_uppercase(&trimmed);
    read_upper_note(&upper)
}

/// Reads one note name like `note_name_to_midi`; `None` where the reading
/// does not finish, where `note_name_to_midi` is not called.
pub fn try_note_name_to_midi(name: &str) -> (r: Option<Result<u8, ParseError>>)
    ensures
        outcome_view(r) == note_name_outcome(name@),
        is_ascii_text(trim(name@)) ==> outcome_view(r) == upper_note_outcome(
            ascii_upper(trim(name@)),
        ),
{
    let chars = chars_of(name);
    assert(chars@.subrange(0, chars@.len() as int) =~= chars@);
    match note_in_range(&chars, 0, chars.len()) {
        None => None,
        Some(_) => Some(note_name_to_midi(name)),
    }
}

/// Reads one note name, ignoring surrounding whitespace and case.
pub fn note_name_to_midi(name: &str) -> (r: Result<u8, ParseError>)
    requires
        (if is_ascii_text(trim(name@)) {
            upper_note_outcome(ascii_upper(trim(name@)))
        } else {
            note_name_outcome(name@)
        }) is Some,
    ensures
        note_name_outcome(name@) == Some(
            match r {
                Ok(v) => Ok::<u8, ParseErrorView>(v),
                Err(e) => Err(e@),
            },
        ),
        is_ascii_text(trim(name@)) ==> upper_note_outcome(ascii_upper(trim(name@))) == Some(
            match r {
                Ok(v) => Ok::<u8, ParseErrorView>(v),
                Err(e) => Err(e@),
            },
        ),
{
    let chars = chars_of(name);
    assert(chars@.subrange(0, chars@.len() as int) =~= chars@);
    note_in_range(&chars, 0, chars.len()).unwrap()
}

pub open spec fn dots() -> Seq<char> {
    seq!['.', '.']
}

/// The notes from `a` up to `b`, both included (none when `a > b`).
pub open spec fn range_seq(a: int, b: int) -> Seq<u8> {
    Seq::new(
        if a <= b {
            (b - a + 1) as nat
        } else {
            0
        },
        |i: int| (a + i) as u8,
    )
}

/// Reading each comma-separated piece as a note, left to right, stopping
/// at the first failure.
pub open spec fn note_list_outcome(parts: Seq<Seq<char>>) -> Option<Result<Seq<u8>, ParseErrorView>>
    decreases parts.len(),
{
    if parts.len() == 0 {
        Some(Ok(seq![]))
    } else {
        match note_list_outcome(parts.drop_last()) {
            None => None,
            Some(Err(e)) => Some(Err(e)),
            Some(Ok(v)) => match note_name_outcome(trim(parts.last())) {
                None => None,
                Some(Err(e)) => Some(Err(e)),
                Some(Ok(n)) => Some(Ok(v.push(n))),
            },
        }
    }
}

/// What `parse_notes` gives for `input`.
pub open spec fn notes_outcome(input: Seq<char>) -> Option<Result<Seq<u8>, ParseErrorView>> {
    let t = trim(input);
    if contains(t, dots()) {
        let parts = split(t, dots());
        if parts.len() != 2 {
            Some(Err(ParseErrorView::InvalidNoteRange(t)))
        } else {
            match note_name_outcome(parts[0]) {
                None => None,
                Some(Err(e)) => Some(Err(e)),
                Some(Ok(a)) => match note_name_outcome(parts[1]) {
                    None => None,
                    Some(Err(e)) => Some(Err(e)),
                    Some(Ok(b)) => Some(Ok(range_seq(a as int, b as int))),
                },
            }
        }
    } else if contains(t, seq![',']) {
        note_list_outcome(split(t, seq![',']))
    } else {
        match note_name_outcome(t) {
            None => None,
            Some(Err(e)) => Some(Err(e)),
            Some(Ok(n)) => Some(Ok(seq![n])),
        }
    }
}

/// The values `a..=b` in order.
pub(crate) fn push_range(out: &mut Vec<u8>, a: u8, b: u8)
    requires
        old(out)@.len() == 0,
    ensures
        final(out)@ == range_seq(a as int, b as int),
{
    if a > b {
        assert(out@ =~= range_seq(a as int, b as int));
        return;
    }
    let mut v = a;
    loop
        invariant
            a <= v <= b,
            out@ == range_seq(a as int, v as int - 1),
        decreases b - v,
    {
        out.push(v);
        assert(out@ =~= range_seq(a as int, v as int));
        if v == b {
            return;
        }
        v = v + 1;
    }
}

/// Reads a note selection: `C2..C6` (every note from the first to the
/// second, none when the first is higher), `C4,E4,G4`, or one note.
fn read_notes(input: &str) -> (r: Option<Result<Vec<u8>, ParseError>>)
    ensures
        list_outcome_view(r) == notes_outcome(input@),
{
    let chars = chars_of(input);
    let (lo, hi) = trim_range(&chars, 0, chars.len());
    assert(chars@.subrange(0, chars@.len() as int) =~= chars@);
    let ghost t = chars@.subrange(lo as int, hi as int);
    let dd = vec!['.', '.'];
    assert(dd@ == dots());
    let parts = split_ranges(&chars, lo, hi, &dd);
    let comma = vec![','];
    assert(comma@ == seq![',']);
    if crate::text::find_in(&chars, lo, hi, &dd).is_some() {
        if parts.len() != 2 {
            return Some(Err(ParseError::InvalidNoteRange(string_of_range(&chars, lo, hi))));
        }
        assert(pieces(chars@, parts@)[0] == chars@.subrange(parts@[0].0 as int, parts@[0].1 as int));
        assert(pieces(chars@, parts@)[1] == chars@.subrange(parts@[1].0 as int, parts@[1].1 as int));
        let a = match note_in_range(&chars, parts[0].0, parts[0].1) {
            None => return None,
            Some(Err(e)) => return Some(Err(e)),
            Some(Ok(a)) => a,
        };
        let b = match note_in_range(&chars, parts[1].0, parts[1].1) {
            None => return None,
            Some(Err(e)) => return Some(Err(e)),
            Some(Ok(b)) => b,
        };
        let mut out: Vec<u8> = Vec::new();
        push_range(&mut out, a, b);
        return Some(Ok(out));
    }
    if crate::text::find_in(&chars, lo, hi, &comma).is_some() {
        let items = split_ranges(&chars, lo, hi, &comma);
        let ghost ps = pieces(chars@, items@);
        let mut out: Vec<u8> = Vec::new();
        let mut i: usize = 0;
        assert(ps.take(0) =~= Seq::<Seq<char>>::empty());
        assert(notes_outcome(input@) == note_list_outcome(ps));
        while i < items.len()
            invariant
                i <= items.len(),
                notes_outcome(input@) == note_list_outcome(ps),
                ps == pieces(chars@, items@),
                ps == split(t, seq![',']),
                forall|k: int| 0 <= k < items.len() ==> (#[trigger] items@[k]).0 <= items@[k].1
                    <= chars.len(),
                note_list_outcome(ps.take(i as int)) == Some(Ok::<Seq<u8>, ParseErrorView>(out@)),
            decreases items.len() - i,
        {
            let (p, q) = items[i];
            assert(ps.take(i + 1).drop_last() =~= ps.take(i as int));
            assert(ps.take(i + 1).last() == chars@.subrange(p as int, q as int));
            let (a, b) = trim_range(&chars, p, q);
            match note_in_range(&chars, a, b) {
                None => {
                    proof {
                        lemma_note_list_prefix_stop(ps, i as int + 1);
                    }
                    return None;
                },
                Some(Err(e)) => {
                    proof {
                        lemma_note_list_prefix_stop(ps, i as int + 1);
                    }
                    return Some(Err(e));
                },
                Some(Ok(n)) => {
                    out.push(n);
                },
            }
            i = i + 1;
        }
        assert(ps.take(items.len() as int) =~= ps);
        return Some(Ok(out));
    }
    match note_in_range(&chars, lo, hi) {
        None => None,
        Some(Err(e)) => Some(Err(e)),
        Some(Ok(n)) => {
            let mut out: Vec<u8> = Vec::new();
            out.push(n);
            assert(out@ =~= seq![n]);
            Some(Ok(out))
        },
    }
}

/// Once a prefix of the pieces fails, the whole list fails the same way.
proof fn lemma_note_list_prefix_stop(ps: Seq<Seq<char>>, k: int)
    requires
        0 <= k <= ps.len(),
        !(note_list_outcome(ps.take(k)) matches Some(Ok(_))),
    ensures
        note_list_outcome(ps) == note_list_outcome(ps.take(k)),
    decreases ps.len(),
{
    if k < ps.len() {
        assert(ps.drop_last().take(k) =~= ps.take(k));
        lemma_note_list_prefix_stop(ps.drop_last(), k);
    } else {
        assert(ps.take(k) =~= ps);
    }
}

/// Reads a note selection: `C2..C6`, `C4,E4,G4`, or one note.
pub fn parse_notes(input: &str) -> (r: Result<Vec<u8>, ParseError>)
    requires
        notes_outcome(input@) is Some,
    ensures
        notes_outcome(input@) == Some(result_view(r)),
{
    read_notes(input).unwrap()
}

/// Reads a note selection like `parse_notes`; `None` on the inputs on
/// which the reading does not finish, where `parse_notes` is not called.
pub fn try_parse_notes(input: &str) -> (r: Option<Result<Vec<u8>, ParseError>>)
    ensures
        list_outcome_view(r) == notes_outcome(input@),
{
    match read_notes(input) {
        None => None,
        Some(_) => Some(parse_notes(input)),
    }
}


// ---------------------------------------------------------------------------
// Velocities
// ---------------------------------------------------------------------------

/// `u8::from_str`.
pub open spec fn u8_of(s: Seq<char>) -> Result<int, IntErrorKind> {
    parse_int(s, 0, 255)
}

/// `v, v - step, v - 2*step, …` while not below `end` (`step > 0`).
pub open spec fn desc_from(v: int, end: int, step: int) -> Seq<u8>
    decreases v - end,
{
    if v < end || step <= 0 {
        seq![]
    } else if v - step < end {
        seq![v as u8]
    } else {
        seq![v as u8] + desc_from(v - step, end, step)
    }
}

/// `v, v + step, …` while not above `end`, continuing only while the next
/// value stays within 127; `None` where the `u8` addition that decides
/// this overflows.
pub open spec fn up_capped(v: int, end: int, step: int) -> Option<Seq<u8>>
    decreases 256 - v,
{
    if v > end || step <= 0 || v < 0 || v > 255 {
        Some(seq![])
    } else if v + step > 255 {
        None
    } else if v + step > 127 {
        Some(seq![v as u8])
    } else {
        match up_capped(v + step, end, step) {
            None => None,
            Some(r) => Some(seq![v as u8] + r),
        }
    }
}

/// The values of a stepped range `start..end:step`: descending when
/// `start > end`, ascending otherwise; `None` where the loop would not end
/// (a zero step) or the ascending addition overflows.
pub open spec fn stepped_outcome(start: int, end: int, step: int) -> Option<Seq<u8>> {
    if start > end {
        if step == 0 {
            None
        } else {
            Some(desc_from(start, end, step))
        }
    } else if step == 0 {
        if start > 127 {
            Some(seq![start as u8])
        } else {
            None
        }
    } else {
        up_capped(start, end, step)
    }
}

/// Reading each comma-separated piece as a velocity, left to right.
pub open spec fn velocity_list_outcome(parts: Seq<Seq<char>>) -> Result<Seq<u8>, ParseErrorView>
    decreases parts.len(),
{
    if parts.len() == 0 {
        Ok(seq![])
    } else {
        match velocity_list_outcome(parts.drop_last()) {
            Err(e) => Err(e),
            Ok(v) => match u8_of(trim(parts.last())) {
                Err(k) => Err(ParseErrorView::InvalidNumber(k)),
                Ok(x) => Ok(v.push(x as u8)),
            },
        }
    }
}

/// What `parse_velocities` gives for `input`.
pub open spec fn velocities_outcome(input: Seq<char>) -> Option<Result<Seq<u8>, ParseErrorView>> {
    let t = trim(input);
    if contains(t, dots()) && contains(t, seq![':']) {
        let parts = split(t, dots());
        if parts.len() != 2 {
            Some(Err(ParseErrorView::InvalidVelocityRange(t)))
        } else {
            match u8_of(parts[0]) {
                Err(k) => Some(Err(ParseErrorView::InvalidNumber(k))),
                Ok(start) => {
                    let rest = split(parts[1], seq![':']);
                    if rest.len() != 2 {
                        Some(Err(ParseErrorView::InvalidVelocityRange(t)))
                    } else {
                        match u8_of(rest[0]) {
                            Err(k) => Some(Err(ParseErrorView::InvalidNumber(k))),
                            Ok(end) => match u8_of(rest[1]) {
                                Err(k) => Some(Err(ParseErrorView::InvalidNumber(k))),
                                Ok(step) => match stepped_outcome(start, end, step) {
                                    None => None,
                                    Some(v) => Some(Ok(v)),
                                },
                            },
                        }
                    }
                },
            }
        }
    } else if contains(t, dots()) {
        let parts = split(t, dots());
        if parts.len() != 2 {
            Some(Err(ParseErrorView::InvalidVelocityRange(t)))
        } else {
            match u8_of(parts[0]) {
                Err(k) => Some(Err(ParseErrorView::InvalidNumber(k))),
                Ok(start) => match u8_of(parts[1]) {
                    Err(k) => Some(Err(ParseErrorView::InvalidNumber(k))),
                    Ok(end) => Some(Ok(range_seq(start, end))),
                },
            }
        }
    } else if contains(t, seq![',']) {
        Some(velocity_list_outcome(split(t, seq![','])))
    } else {
        match u8_of(t) {
            Err(k) => Some(Err(ParseErrorView::InvalidNumber(k))),
            Ok(v) => Some(Ok(seq![v as u8])),
        }
    }
}

/// Reads `s[lo..hi]` as a `u8`.
pub(crate) fn u8_in_range(s: &Vec<char>, lo: usize, hi: usize) -> (r: Result<u8, IntErrorKind>)
    requires
        lo <= hi <= s.len(),
    ensures
        match r {
            Ok(v) => u8_of(s@.subrange(lo as int, hi as int)) == Ok::<int, IntErrorKind>(v as int),
            Err(k) => u8_of(s@.subrange(lo as int, hi as int)) == Err::<int, IntErrorKind>(k),
        },
{
    match parse_int_range(s, lo, hi, 0, 255) {
        Ok(v) => Ok(v as u8),
        Err(k) => Err(k),
    }
}

/// The values of a stepped range, as `stepped_outcome` describes them.
pub fn stepped_values(start: u8, end: u8, step: u8) -> (r: Option<Vec<u8>>)
    ensures
        match r {
            None => stepped_outcome(start as int, end as int, step as int) is None,
            Some(v) => stepped_outcome(start as int, end as int, step as int) == Some(v@),
        },
{
    let mut out: Vec<u8> = Vec::new();
    if start > end {
        if step == 0 {
            return None;
        }
        let mut v = start;
        loop
            invariant
                end <= v <= start,
                start > end,
                step > 0,
                out@ + desc_from(v as int, end as int, step as int) == desc_from(
                    start as int,
                    end as int,
                    step as int,
                ),
            decreases v,
        {
            let ghost before = out@;
            out.push(v);
            assert(desc_from(v as int, end as int, step as int) =~= seq![v] + desc_from(
                v - step,
                end as int,
                step as int,
            ));
            assert(out@ + desc_from(v - step, end as int, step as int) =~= before + desc_from(
                v as int,
                end as int,
                step as int,
            ));
            if v <= end || v < step {
                assert(desc_from(v - step, end as int, step as int) =~= Seq::<u8>::empty());
                assert(out@ =~= out@ + desc_from(v - step, end as int, step as int));
                return Some(out);
            }
            v = v - step;
            if v < end {
                assert(out@ =~= out@ + desc_from(v as int, end as int, step as int));
                return Some(out);
            }
        }
    } else if step == 0 {
        if start > 127 {
            out.push(start);
            assert(out@ =~= seq![start]);
            return Some(out);
        }
        return None;
    } else {
        let mut v = start;
        while v <= end
            invariant
                start <= v,
                start <= end,
                step > 0,
                up_capped(start as int, end as int, step as int) matches Some(all) ==> (
                up_capped(v as int, end as int, step as int) matches Some(rest) && all == out@
                    + rest),
                up_capped(start as int, end as int, step as int) is None ==> up_capped(
                    v as int,
                    end as int,
                    step as int,
                ) is None,
            decreases 256 - v,
        {
            let ghost before = out@;
            out.push(v);
            if v as u16 + step as u16 > 255 {
                return None;
            }
            if v + step > 127 {
                assert(up_capped(v as int, end as int, step as int) == Some(seq![v]));
                assert(out@ =~= before + seq![v]);
                return Some(out);
            }
            proof {
                match up_capped(v + step, end as int, step as int) {
                    None => {},
                    Some(rest) => {
                        assert(out@ + rest =~= before + (seq![v] + rest));
                    },
                }
            }
            v = v + step;
        }
        assert(up_capped(v as int, end as int, step as int) == Some(Seq::<u8>::empty()));
        assert(out@ + Seq::<u8>::empty() =~= out@);
        Some(out)
    }
}

/// Reads a velocity selection: `127..1:8` (stepped), `64..127` (every
/// value), `127,100,64`, or one value.
fn read_velocities(input: &str) -> (r: Option<Result<Vec<u8>, ParseError>>)
    ensures
        list_outcome_view(r) == velocities_outcome(input@),
{
    let chars = chars_of(input);
    let (lo, hi) = trim_range(&chars, 0, chars.len());
    assert(chars@.subrange(0, chars@.len() as int) =~= chars@);
    let ghost t = chars@.subrange(lo as int, hi as int);
    let dd = vec!['.', '.'];
    assert(dd@ == dots());
    let colon = vec![':'];
    assert(colon@ == seq![':']);
    let comma = vec![','];
    assert(comma@ == seq![',']);
    let has_dots = crate::text::find_in(&chars, lo, hi, &dd).is_some();
    let has_colon = crate::text::find_in(&chars, lo, hi, &colon).is_some();
    if has_dots {
        let parts = split_ranges(&chars, lo, hi, &dd);
        if parts.len() != 2 {
            return Some(Err(ParseError::InvalidVelocityRange(string_of_range(&chars, lo, hi))));
        }
        assert(pieces(chars@, parts@)[0] == chars@.subrange(parts@[0].0 as int, parts@[0].1 as int));
        assert(pieces(chars@, parts@)[1] == chars@.subrange(parts@[1].0 as int, parts@[1].1 as int));
        let start = match u8_in_range(&chars, parts[0].0, parts[0].1) {
            Ok(v) => v,
            Err(k) => return Some(Err(ParseError::InvalidNumber(k))),
        };
        if has_colon {
            let rest = split_ranges(&chars, parts[1].0, parts[1].1, &colon);
            if rest.len() != 2 {
                return Some(
                    Err(ParseError::InvalidVelocityRange(string_of_range(&chars, lo, hi))),
                );
            }
            assert(pieces(chars@, rest@)[0] == chars@.subrange(rest@[0].0 as int, rest@[0].1 as int));
            assert(pieces(chars@, rest@)[1] == chars@.subrange(rest@[1].0 as int, rest@[1].1 as int));
            let end = match u8_in_range(&chars, rest[0].0, rest[0].1) {
                Ok(v) => v,
                Err(k) => return Some(Err(ParseError::InvalidNumber(k))),
            };
            let step = match u8_in_range(&chars, rest[1].0, rest[1].1) {
                Ok(v) => v,
                Err(k) => return Some(Err(ParseError::InvalidNumber(k))),
            };
            return match stepped_values(start, end, step) {
                None => None,
                Some(v) => Some(Ok(v)),
            };
        }
        let end = match u8_in_range(&chars, parts[1].0, parts[1].1) {
            Ok(v) => v,
            Err(k) => return Some(Err(ParseError::InvalidNumber(k))),
        };
        let mut out: Vec<u8> = Vec::new();
        push_range(&mut out, start, end);
        return Some(Ok(out));
    }
    if crate::text::find_in(&chars, lo, hi, &comma).is_some() {
        let items = split_ranges(&chars, lo, hi, &comma);
        let ghost ps = pieces(chars@, items@);
        let mut out: Vec<u8> = Vec::new();
        let mut i: usize = 0;
        assert(ps.take(0) =~= Seq::<Seq<char>>::empty());
        assert(velocities_outcome(input@) == Some(velocity_list_outcome(ps)));
        while i < items.len()
            invariant
                i <= items.len(),
                velocities_outcome(input@) == Some(velocity_list_outcome(ps)),
                ps == pieces(chars@, items@),
                forall|k: int| 0 <= k < items.len() ==> (#[trigger] items@[k]).0 <= items@[k].1
                    <= chars.len(),
                velocity_list_outcome(ps.take(i as int)) == Ok::<Seq<u8>, ParseErrorView>(out@),
            decreases items.len() - i,
        {
            let (p, q) = items[i];
            assert(ps.take(i + 1).drop_last() =~= ps.take(i as int));
            assert(ps.take(i + 1).last() == chars@.subrange(p as int, q as int));
            let (a, b) = trim_range(&chars, p, q);
            match u8_in_range(&chars, a, b) {
                Err(k) => {
                    proof {
                        lemma_velocity_list_prefix_stop(ps, i as int + 1);
                    }
                    return Some(Err(ParseError::InvalidNumber(k)));
                },
                Ok(v) => {
                    out.push(v);
                },
            }
            i = i + 1;
        }
        assert(ps.take(items.len() as int) =~= ps);
        return Some(Ok(out));
    }
    match u8_in_range(&chars, lo, hi) {
        Err(k) => Some(Err(ParseError::InvalidNumber(k))),
        Ok(v) => {
            let mut out: Vec<u8> = Vec::new();
            out.push(v);
            assert(out@ =~= seq![v]);
            Some(Ok(out))
        },
    }
}

proof fn lemma_velocity_list_prefix_stop(ps: Seq<Seq<char>>, k: int)
    requires
        0 <= k <= ps.len(),
        velocity_list_outcome(ps.take(k)) is Err,
    ensures
        velocity_list_outcome(ps) == velocity_list_outcome(ps.take(k)),
    decreases ps.len(),
{
    if k < ps.len() {
        assert(ps.drop_last().take(k) =~= ps.take(k));
        lemma_velocity_list_prefix_stop(ps.drop_last(), k);
    } else {
        assert(ps.take(k) =~= ps);
    }
}

/// Reads a velocity selection: `127..1:8`, `64..127`, `127,100,64`, or one
/// value.
pub fn parse_velocities(input: &str) -> (r: Result<Vec<u8>, ParseError>)
    requires
        velocities_outcome(input@) is Some,
    ensures
        velocities_outcome(input@) == Some(result_view(r)),
{
    read_velocities(input).unwrap()
}

/// Reads a velocity selection like `parse_velocities`; `None` on the
/// inputs on which the reading does not finish, where `parse_velocities` is
/// not called.
pub fn try_parse_velocities(input: &str) -> (r: Option<Result<Vec<u8>, ParseError>>)
    ensures
        list_outcome_view(r) == velocities_outcome(input@),
{
    match read_velocities(input) {
        None => None,
        Some(_) => Some(parse_velocities(input)),
    }
}

// ---------------------------------------------------------------------------
// Laws of the selections
// ---------------------------------------------------------------------------

/// `a, a - step, a - 2*step, …`, `count` values.
pub open spec fn run_down(a: int, step: int, count: nat) -> Seq<u8> {
    Seq::new(count, |i: int| (a - i * step) as u8)
}

/// `a, a + step, a + 2*step, …`, `count` values.
pub open spec fn run_up(a: int, step: int, count: nat) -> Seq<u8> {
    Seq::new(count, |i: int| (a + i * step) as u8)
}

proof fn lemma_div_step(x: int, step: int)
    requires
        x >= step,
        step >= 1,
    ensures
        (x - step) / step + 1 == x / step,
{
    assert((x - step) / step + 1 == x / step) by (nonlinear_arith)
        requires
            x >= step,
            step >= 1,
    ;
}

proof fn lemma_div_small(x: int, step: int)
    requires
        0 <= x < step,
    ensures
        x / step == 0,
{
    assert(x / step == 0) by (nonlinear_arith)
        requires
            0 <= x < step,
    ;
}

/// Stepping down from `v` to `end` lists `v, v - step, …`: the
/// `(v - end) / step + 1` values that do not pass below `end`.
#[verifier::spinoff_prover]
pub proof fn lemma_desc_from_closed(v: int, end: int, step: int)
    requires
        0 <= end <= v,
        step >= 1,
    ensures
        desc_from(v, end, step) == run_down(v, step, ((v - end) / step + 1) as nat),
        (v - end) / step >= 0,
    decreases v - end,
{
    let n = (v - end) / step;
    if v - step < end {
        lemma_div_small(v - end, step);
        assert(desc_from(v, end, step) =~= run_down(v, step, 1));
    } else {
        lemma_desc_from_closed(v - step, end, step);
        lemma_div_step(v - end, step);
        assert((v - step) - end == (v - end) - step);
        let rest = run_down(v - step, step, ((v - step - end) / step + 1) as nat);
        assert(rest.len() == n);
        assert forall|i: int| 0 <= i < n + 1 implies #[trigger] run_down(v, step, (n + 1) as nat)[i]
            == (seq![v as u8] + rest)[i] by {
            if i > 0 {
                assert((seq![v as u8] + rest)[i] == rest[i - 1]);
                assert(rest[i - 1] == ((v - step) - (i - 1) * step) as u8);
                assert((v - step) - (i - 1) * step == v - i * step) by (nonlinear_arith);
            }
        }
        assert(run_down(v, step, (n + 1) as nat) =~= seq![v as u8] + rest);
    }
}

/// Stepping up from `v` to `end` (both within 0..=127) lists `v, v + step,
/// …`: the `(end - v) / step + 1` values that do not pass `end`.
#[verifier::spinoff_prover]
pub proof fn lemma_up_capped_closed(v: int, end: int, step: int)
    requires
        0 <= v <= end <= 127,
        step >= 1,
        v + step <= 255,
    ensures
        up_capped(v, end, step) == Some(run_up(v, step, ((end - v) / step + 1) as nat)),
        (end - v) / step >= 0,
    decreases end - v,
{
    let n = (end - v) / step;
    if v + step > end {
        lemma_div_small(end - v, step);
        if v + step <= 127 {
            assert(up_capped(v + step, end, step) == Some(Seq::<u8>::empty()));
        }
        assert(up_capped(v, end, step) == Some(seq![v as u8]));
        assert(run_up(v, step, 1) =~= seq![v as u8]);
    } else {
        lemma_up_capped_closed(v + step, end, step);
        lemma_div_step(end - v, step);
        assert(end - (v + step) == (end - v) - step);
        let rest = run_up(v + step, step, ((end - v - step) / step + 1) as nat);
        assert(rest.len() == n);
        assert forall|i: int| 0 <= i < n + 1 implies #[trigger] run_up(v, step, (n + 1) as nat)[i]
            == (seq![v as u8] + rest)[i] by {
            if i > 0 {
                assert((seq![v as u8] + rest)[i] == rest[i - 1]);
                assert(rest[i - 1] == ((v + step) + (i - 1) * step) as u8);
                assert((v + step) + (i - 1) * step == v + i * step) by (nonlinear_arith);
            }
        }
        assert(run_up(v, step, (n + 1) as nat) =~= seq![v as u8] + rest);
    }
}

proof fn lemma_up_capped_bounded(v: int, end: int, step: int)
    requires
        0 <= v,
    ensures
        up_capped(v, end, step) matches Some(r) ==> r.len() == 0 || v + r.len() <= 256,
    decreases 256 - v,
{
    if !(v > end || step <= 0 || v > 255) && v + step <= 127 {
        lemma_up_capped_bounded(v + step, end, step);
    }
}

/// A range of byte values, plain or stepped, lists at most 256 values
/// whenever its reading finishes.
pub proof fn lemma_velocity_ranges_bounded(start: u8, end: u8, step: u8)
    ensures
        range_seq(start as int, end as int).len() <= 256,
        stepped_outcome(start as int, end as int, step as int) matches Some(v) ==> v.len() <= 256,
{
    lemma_up_capped_bounded(start as int, end as int, step as int);
    if start > end && step > 0 {
        lemma_desc_from_closed(start as int, end as int, step as int);
        assert((start - end) / (step as int) <= start - end) by (nonlinear_arith)
            requires
                start > end,
                step >= 1,
        ;
    }
}

pub(crate) proof fn lemma_digits_are_not(n: nat, c: char)
    requires
        n <= 255,
        !is_dec_digit(c),
    ensures
        forall|j: int| 0 <= j < dec_digits(n).len() ==> #[trigger] dec_digits(n)[j] != c,
        u8_of(dec_digits(n)) == Ok::<int, IntErrorKind>(n as int),
{
    lemma_dec_digits_read(n, 255);
    lemma_fmt_int_read(n as int, 0, 255);
}

/// `a..b:s` written in decimal (and trimmed to that) reads as the stepped
/// range: `a, a - s, …` down to `b` when `a > b`; `a, a + s, …` up to `b`
/// when `a <= b <= 127` and `a + s` fits in a byte. Either way every value
/// that fits between the ends is listed, in order.
pub proof fn lemma_stepped_velocities_read(input: Seq<char>, a: nat, b: nat, s: nat)
    requires
        a <= 255,
        b <= 255,
        1 <= s <= 255,
        a > b || (b <= 127 && a + s <= 255),
        trim(input) == dec_digits(a) + dots() + dec_digits(b) + seq![':'] + dec_digits(s),
    ensures
        velocities_outcome(input) == Some(
            Ok::<Seq<u8>, ParseErrorView>(
                if a > b {
                    run_down(a as int, s as int, ((a - b) / (s as int) + 1) as nat)
                } else {
                    run_up(a as int, s as int, ((b - a) / (s as int) + 1) as nat)
                },
            ),
        ),
{
    let da = dec_digits(a);
    let db = dec_digits(b);
    let ds = dec_digits(s);
    let colon = seq![':'];
    let rest = db + colon + ds;
    let t = trim(input);
    assert(t =~= da + dots() + rest);
    lemma_digits_are_not(a, '.');
    lemma_digits_are_not(b, '.');
    lemma_digits_are_not(s, '.');
    lemma_digits_are_not(a, ':');
    lemma_digits_are_not(b, ':');
    lemma_digits_are_not(s, ':');
    assert forall|j: int| 0 <= j < rest.len() implies #[trigger] rest[j] != dots()[0] by {
        if j < db.len() {
            assert(rest[j] == db[j]);
        } else if j > db.len() {
            assert(rest[j] == ds[j - db.len() - 1]);
        }
    }
    lemma_absent_first_char(rest, dots());
    lemma_no_start_inside(da, dots(), rest);
    lemma_split_two(da, dots(), rest);
    lemma_absent_first_char(ds, colon);
    lemma_no_start_inside(db, colon, ds);
    lemma_split_two(db, colon, ds);
    let head = da + dots() + db;
    assert(t =~= head + colon + ds);
    assert(colon[0] == ':');
    assert forall|j: int| 0 <= j < head.len() implies #[trigger] head[j] != colon[0] by {
        if j < da.len() {
            assert(head[j] == da[j]);
            assert(da[j] != ':');
        } else if j >= da.len() + 2 {
            assert(head[j] == db[j - da.len() - 2]);
            assert(db[j - da.len() - 2] != ':');
        } else {
            assert(head[j] == dots()[j - da.len()]);
            assert(dots()[j - da.len()] == '.');
        }
    }
    lemma_no_start_inside(head, colon, ds);
    lemma_find_after(head, colon, ds);
    assert(contains(t, colon));
    if a > b {
        lemma_desc_from_closed(a as int, b as int, s as int);
    } else {
        lemma_up_capped_closed(a as int, b as int, s as int);
    }
}

/// `a..b` written in decimal (and trimmed to that) reads as every value
/// from `a` to `b`: `b - a + 1` values `a, a + 1, …`, none when `a > b`.
pub proof fn lemma_range_velocities_read(input: Seq<char>, a: nat, b: nat)
    requires
        a <= 255,
        b <= 255,
        trim(input) == dec_digits(a) + dots() + dec_digits(b),
    ensures
        velocities_outcome(input) == Some(Ok::<Seq<u8>, ParseErrorView>(range_seq(a as int, b as int))),
        range_seq(a as int, b as int).len() == if a <= b {
            b - a + 1
        } else {
            0
        },
        forall|i: int| 0 <= i < range_seq(a as int, b as int).len() ==> #[trigger] range_seq(
            a as int,
            b as int,
        )[i] == a + i,
{
    let da = dec_digits(a);
    let db = dec_digits(b);
    let t = trim(input);
    lemma_digits_are_not(a, '.');
    lemma_digits_are_not(b, '.');
    lemma_digits_are_not(a, ':');
    lemma_digits_are_not(b, ':');
    lemma_absent_first_char(db, dots());
    lemma_no_start_inside(da, dots(), db);
    lemma_split_two(da, dots(), db);
    assert forall|j: int| 0 <= j < t.len() implies #[trigger] t[j] != seq![':'][0] by {
        if j < da.len() {
            assert(t[j] == da[j]);
        } else if j >= da.len() + 2 {
            assert(t[j] == db[j - da.len() - 2]);
        }
    }
    lemma_absent_first_char(t, seq![':']);
}

/// The decimal form of a byte value with whitespace after it (or before
/// it) trims back to the decimal form, and holds neither `.`, `,` nor `:`.
pub(crate) proof fn lemma_padded_digits(n: nat, w1: Seq<char>, w2: Seq<char>)
    requires
        n <= 255,
        all_white_space(w1),
        all_white_space(w2),
    ensures
        trim(w1 + dec_digits(n) + w2) == dec_digits(n),
        u8_of(dec_digits(n)) == Ok::<int, IntErrorKind>(n as int),
        forall|j: int|
            0 <= j < (w1 + dec_digits(n) + w2).len() ==> {
                let c = #[trigger] (w1 + dec_digits(n) + w2)[j];
                c != '.' && c != ',' && c != ':'
            },
{
    let d = dec_digits(n);
    lemma_dec_digits_read(n, 255);
    lemma_digits_are_not(n, '.');
    lemma_trim_padding(w1, d, w2);
    let p = w1 + d + w2;
    assert forall|j: int| 0 <= j < p.len() implies {
        let c = #[trigger] p[j];
        c != '.' && c != ',' && c != ':'
    } by {
        if j < w1.len() {
            assert(p[j] == w1[j]);
            assert(is_white_space(w1[j]));
        } else if j < w1.len() + d.len() {
            assert(p[j] == d[j - w1.len()]);
            assert(is_dec_digit(d[j - w1.len()]));
        } else {
            assert(p[j] == w2[j - w1.len() - d.len()]);
            assert(is_white_space(w2[j - w1.len() - d.len()]));
        }
    }
}

/// Two byte values in decimal separated by a comma, with any whitespace
/// around the comma, read as those two values in order: each item of a
/// velocity list is trimmed before it is read.
pub proof fn lemma_velocity_pair_read(input: Seq<char>, a: nat, b: nat, w1: Seq<char>, w2: Seq<char>)
    requires
        a <= 255,
        b <= 255,
        all_white_space(w1),
        all_white_space(w2),
        trim(input) == dec_digits(a) + w1 + seq![','] + w2 + dec_digits(b),
    ensures
        velocities_outcome(input) == Some(Ok::<Seq<u8>, ParseErrorView>(seq![a as u8, b as u8])),
{
    let e: Seq<char> = seq![];
    let x = dec_digits(a) + w1;
    let y = w2 + dec_digits(b);
    let t = trim(input);
    assert(e + dec_digits(a) + w1 =~= x);
    assert(w2 + dec_digits(b) + e =~= y);
    lemma_padded_digits(a, e, w1);
    lemma_padded_digits(b, w2, e);
    assert(t =~= x + seq![','] + y);
    assert forall|j: int| 0 <= j < t.len() implies #[trigger] t[j] != dots()[0] by {
        if j < x.len() {
            assert(t[j] == (e + dec_digits(a) + w1)[j]);
        } else if j > x.len() {
            assert(t[j] == (w2 + dec_digits(b) + e)[j - x.len() - 1]);
        }
    }
    lemma_absent_first_char(t, dots());
    assert forall|j: int| 0 <= j < x.len() implies #[trigger] x[j] != seq![','][0] by {
        assert(x[j] == (e + dec_digits(a) + w1)[j]);
    }
    assert forall|j: int| 0 <= j < y.len() implies #[trigger] y[j] != seq![','][0] by {
        assert(y[j] == (w2 + dec_digits(b) + e)[j]);
    }
    lemma_no_start_inside(x, seq![','], y);
    lemma_absent_first_char(y, seq![',']);
    lemma_split_two(x, seq![','], y);
    let parts = seq![x, y];
    assert(parts.drop_last() =~= seq![x]);
    assert(seq![x].drop_last() =~= Seq::<Seq<char>>::empty());
    assert(trim(x) == dec_digits(a));
    assert(trim(y) == dec_digits(b));
    assert(velocity_list_outcome(Seq::<Seq<char>>::empty()) == Ok::<Seq<u8>, ParseErrorView>(seq![]));
    assert(seq![x].last() == x);
    assert(u8_of(trim(x)) == Ok::<int, IntErrorKind>(a as int));
    assert(Seq::<u8>::empty().push(a as u8) =~= seq![a as u8]);
    assert(velocity_list_outcome(seq![x]) == Ok::<Seq<u8>, ParseErrorView>(seq![a as u8]));
    assert(parts.last() == y);
    assert(seq![a as u8].push(b as u8) =~= seq![a as u8, b as u8]);
}

/// Adding an item to a velocity list: a selection `s` (with no `.`, not
/// starting or ending with whitespace) followed by a comma and a byte value
/// in decimal, with whitespace before the value, reads as what `s` reads
/// as with that value appended; where `s` is refused, the longer list is
/// refused the same way. So a list reads item by item, each item trimmed.
pub proof fn lemma_velocity_list_appends(input: Seq<char>, s: Seq<char>, w: Seq<char>, b: nat)
    requires
        b <= 255,
        all_white_space(w),
        s.len() > 0,
        !is_white_space(s[0]),
        !is_white_space(s.last()),
        forall|j: int| 0 <= j < s.len() ==> #[trigger] s[j] != '.',
        trim(input) == s + seq![','] + w + dec_digits(b),
    ensures
        velocities_outcome(input) == match velocities_outcome(s) {
            Some(Ok(v)) => Some(Ok::<Seq<u8>, ParseErrorView>(v.push(b as u8))),
            r => r,
        },
{
    let e: Seq<char> = seq![];
    let y = w + dec_digits(b);
    let t = trim(input);
    let c = seq![','];
    assert(w + dec_digits(b) + e =~= y);
    lemma_padded_digits(b, w, e);
    assert(t =~= s + c + y);
    assert forall|j: int| 0 <= j < t.len() implies #[trigger] t[j] != dots()[0] by {
        if j < s.len() {
            assert(t[j] == s[j]);
        } else if j > s.len() {
            assert(t[j] == (w + dec_digits(b) + e)[j - s.len() - 1]);
        }
    }
    lemma_absent_first_char(t, dots());
    assert forall|j: int| 0 <= j < y.len() implies #[trigger] y[j] != c[0] by {
        assert(y[j] == (w + dec_digits(b) + e)[j]);
    }
    lemma_absent_first_char(y, c);
    lemma_split_append(s, ',', y);
    assert(t.subrange(s.len() as int, s.len() as int + 1) =~= c);
    assert(matches_at(t, s.len() as int, c));
    lemma_find_from_range(t, c, 0);
    assert(contains(t, c));
    lemma_trim_of_trimmed(s);
    lemma_absent_first_char(s, dots());
    let ps = split(s, c);
    assert(ps.push(y).drop_last() =~= ps);
    assert(ps.push(y).last() == y);
    if !contains(s, c) {
        lemma_find_from_range(s, c, 0);
        assert(ps == seq![s]);
        assert(seq![s].drop_last() =~= Seq::<Seq<char>>::empty());
        assert(velocity_list_outcome(Seq::<Seq<char>>::empty()) == Ok::<Seq<u8>, ParseErrorView>(seq![]));
        assert(seq![s].last() == s);
        assert(forall|x: u8| Seq::<u8>::empty().push(x) =~= seq![x]);
    }
}

/// A note range `a..b` (trimmed to that, where neither `a` nor `b` holds
/// `..` and `a` does not end in a dot) whose ends read as notes `x` and `y`
/// lists every note from `x` to `y`: `y - x + 1` notes `x, x + 1, …`, none
/// when `x > y`.
pub proof fn lemma_note_range_read(input: Seq<char>, a: Seq<char>, b: Seq<char>, x: u8, y: u8)
    requires
        trim(input) == a + dots() + b,
        !contains(a, dots()),
        a.len() == 0 || a.last() != '.',
        !contains(b, dots()),
        note_name_outcome(a) == Some(Ok::<u8, ParseErrorView>(x)),
        note_name_outcome(b) == Some(Ok::<u8, ParseErrorView>(y)),
    ensures
        notes_outcome(input) == Some(Ok::<Seq<u8>, ParseErrorView>(range_seq(x as int, y as int))),
        range_seq(x as int, y as int).len() == if x <= y {
            y - x + 1
        } else {
            0
        },
        forall|i: int| 0 <= i < range_seq(x as int, y as int).len() ==> #[trigger] range_seq(
            x as int,
            y as int,
        )[i] == x + i,
{
    let t = a + dots() + b;
    let ap = a.push('.');
    crate::text::lemma_find_from_range(a, dots(), 0);
    crate::text::lemma_find_from_range(ap, dots(), 0);
    assert forall|j: int| 0 <= j implies !crate::text::matches_at(ap, j, dots()) by {
        if crate::text::matches_at(ap, j, dots()) {
            assert(ap.subrange(j, j + 2)[0] == ap[j]);
            assert(ap.subrange(j, j + 2)[1] == ap[j + 1]);
            if j + 2 <= a.len() {
                assert(a.subrange(j, j + 2) =~= ap.subrange(j, j + 2));
                assert(crate::text::matches_at(a, j, dots()));
            } else {
                assert(j == a.len() - 1);
                assert(ap[j] == a.last());
            }
        }
    }
    assert(!contains(ap, dots()));
    assert forall|j: int| 0 <= j < a.len() implies !crate::text::matches_at(
        #[trigger] (a + dots() + b),
        j,
        dots(),
    ) by {
        if crate::text::matches_at(t, j, dots()) {
            assert(t[j] == '.' && t[j + 1] == '.') by {
                assert(t.subrange(j, j + 2)[0] == t[j]);
                assert(t.subrange(j, j + 2)[1] == t[j + 1]);
            }
            assert(ap[j] == t[j]);
            assert(ap[j + 1] == t[j + 1]);
            assert(ap.subrange(j, j + 2) =~= dots());
            assert(crate::text::matches_at(ap, j, dots()));
        }
    }
    lemma_split_two(a, dots(), b);
}

} // verus!
