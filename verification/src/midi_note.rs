//! Notes as `MidiNote` values: reading names such as `C#4` or `Bb3`,
//! naming note numbers, reading note and velocity selections into
//! validated lists, and naming sample files.

use vstd::prelude::*;
use crate::parse::{run_up, run_down, lemma_desc_from_closed, char_width, char_width_of, desc_from, dots, push_range, range_seq, u8_in_range, u8_of, lemma_padded_digits};
use crate::text::{
    chars_of, contains, copy_range, dec_digits, digit_char, fmt_int, parse_int, parse_int_range, pieces,
    push_all, push_decimal, push_signed, split, split_ranges, str_to_uppercase, string_from_chars,
    string_of_range, to_uppercase, trim, trim_range, zero_pad, IntErrorKind, accumulate_up,
    accumulate_down, digit_value, is_dec_digit, is_ascii_text, ascii_upper, ascii_upper_char,
    lemma_trim_of_trimmed, all_white_space, lemma_absent_first_char, lemma_no_start_inside,
    lemma_split_two, lemma_split_append, is_white_space, lemma_find_from_range, matches_at,
};

verus! {

/// A MIDI note number.
#[derive(Debug, Clone, Copy, PartialEq, Eq, PartialOrd, Ord, Structural)]
pub struct MidiNote(pub u8);

/// Why a note or velocity specification was rejected.
#[derive(Debug, Clone, PartialEq, Eq)]
pub enum NoteSpecError {
    /// A range that does not split into exactly two ends; holds the input.
    InvalidNoteRange(String),
    /// The first end of a range is not a note; holds that end.
    InvalidStartNote(String),
    /// The second end of a range is not a note; holds that end.
    InvalidEndNote(String),
    /// The range runs downwards.
    StartAfterEnd,
    /// A list item or single note that is not a note; holds it untrimmed.
    InvalidNote(String),
    /// A velocity range that does not split as `start..end[:step]`.
    InvalidVelocityRange(String),
    /// A velocity that is not an integer in 0..=255.
    InvalidNumber(IntErrorKind),
    /// A velocity outside 1..=127.
    VelocityOutOfRange,
}

pub enum NoteSpecErrorView {
    InvalidNoteRange(Seq<char>),
    InvalidStartNote(Seq<char>),
    InvalidEndNote(Seq<char>),
    StartAfterEnd,
    InvalidNote(Seq<char>),
    InvalidVelocityRange(Seq<char>),
    InvalidNumber(IntErrorKind),
    VelocityOutOfRange,
}

impl View for NoteSpecError {
    type V = NoteSpecErrorView;

    open spec fn view(&self) -> NoteSpecErrorView {
        match self {
            NoteSpecError::InvalidNoteRange(s) => NoteSpecErrorView::InvalidNoteRange(s@),
            NoteSpecError::InvalidStartNote(s) => NoteSpecErrorView::InvalidStartNote(s@),
            NoteSpecError::InvalidEndNote(s) => NoteSpecErrorView::InvalidEndNote(s@),
            NoteSpecError::StartAfterEnd => NoteSpecErrorView::StartAfterEnd,
            NoteSpecError::InvalidNote(s) => NoteSpecErrorView::InvalidNote(s@),
            NoteSpecError::InvalidVelocityRange(s) => NoteSpecErrorView::InvalidVelocityRange(s@),
            NoteSpecError::InvalidNumber(k) => NoteSpecErrorView::InvalidNumber(*k),
            NoteSpecError::VelocityOutOfRange => NoteSpecErrorView::VelocityOutOfRange,
        }
    }
}

/// Semitones above C of a natural note letter.
pub open spec fn letter_offset(c: char) -> Option<int> {
    if c == 'C' {
        Some(0)
    } else if c == 'D' {
        Some(2)
    } else if c == 'E' {
        Some(4)
    } else if c == 'F' {
        Some(5)
    } else if c == 'G' {
        Some(7)
    } else if c == 'A' {
        Some(9)
    } else if c == 'B' {
        Some(11)
    } else {
        None
    }
}

/// Reading an upper-cased, trimmed note name: a letter, then `#` or `S`
/// (sharp) or `B` followed by more (flat), then an `i8` octave; the note
/// number `(octave + 1) * 12 + letter + accidental` is computed in `i8`.
/// The outer `None` marks the inputs on which the byte slicing after the
/// letter splits a character or that `i8` arithmetic overflows; the inner
/// `None` a name that is not a note in 0..=127.
pub open spec fn upper_midi_note_outcome(u: Seq<char>) -> Option<Option<u8>> {
    if u.len() == 0 {
        Some(None)
    } else if char_width(u[0]) > 1 {
        None
    } else {
        let rest = u.drop_first();
        let sharp = rest.len() > 0 && (rest[0] == '#' || rest[0] == 'S');
        let flat = !sharp && rest.len() > 1 && rest[0] == 'B';
        let acc: int = if sharp {
            1
        } else if flat {
            -1
        } else {
            0
        };
        let oct = if sharp || flat {
            rest.drop_first()
        } else {
            rest
        };
        match parse_int(oct, -128, 127) {
            Err(_) => Some(None),
            Ok(o) => match letter_offset(u[0]) {
                None => Some(None),
                Some(off) => {
                    let t1 = o + 1;
                    let t2 = t1 * 12;
                    let t3 = t2 + off;
                    let t4 = t3 + acc;
                    if t1 > 127 || t2 < -128 || t2 > 127 || t3 > 127 || t4 < -128 || t4 > 127 {
                        None
                    } else if 0 <= t4 && t4 <= 127 {
                        Some(Some(t4 as u8))
                    } else {
                        Some(None)
                    }
                },
            },
        }
    }
}

/// What `MidiNote::from_name` gives for `name`.
pub open spec fn from_name_outcome(name: Seq<char>) -> Option<Option<u8>> {
    upper_midi_note_outcome(str_to_uppercase(trim(name)))
}

/// Name of a pitch class with `#` for sharps.
pub open spec fn pitch_class_name(p: int) -> Seq<char> {
    if p == 0 {
        seq!['C']
    } else if p == 1 {
        seq!['C', '#']
    } else if p == 2 {
        seq!['D']
    } else if p == 3 {
        seq!['D', '#']
    } else if p == 4 {
        seq!['E']
    } else if p == 5 {
        seq!['F']
    } else if p == 6 {
        seq!['F', '#']
    } else if p == 7 {
        seq!['G']
    } else if p == 8 {
        seq!['G', '#']
    } else if p == 9 {
        seq!['A']
    } else if p == 10 {
        seq!['A', '#']
    } else {
        seq!['B']
    }
}

/// `MidiNote::to_name`: pitch class name, then the octave `n / 12 - 1`.
pub open spec fn note_name(n: u8) -> Seq<char> {
    pitch_class_name(n as int % 12) + fmt_int(n as int / 12 - 1)
}

pub(crate) fn push_pitch_class_name(out: &mut Vec<char>, p: u8)
    requires
        p < 12,
    ensures
        final(out)@ == old(out)@ + pitch_class_name(p as int),
{
    let ghost start = out@;
    let letter = if p <= 1 {
        'C'
    } else if p <= 3 {
        'D'
    } else if p == 4 {
        'E'
    } else if p <= 6 {
        'F'
    } else if p <= 8 {
        'G'
    } else if p <= 10 {
        'A'
    } else {
        'B'
    };
    out.push(letter);
    if p == 1 || p == 3 || p == 6 || p == 8 || p == 10 {
        out.push('#');
    }
    assert(out@ =~= start + pitch_class_name(p as int));
}

impl MidiNote {
    /// Reads an upper-cased, trimmed note name; `None` on the inputs on which
    /// `upper_midi_note_outcome` has none.
    pub fn read_upper(u: &Vec<char>) -> (r: Option<Option<MidiNote>>)
        ensures
            match r {
                None => upper_midi_note_outcome(u@) is None,
                Some(None) => upper_midi_note_outcome(u@) == Some(None::<u8>),
                Some(Some(m)) => upper_midi_note_outcome(u@) == Some(Some(m.0)),
            },
    {
        let n = u.len();
        if n == 0 {
            return Some(None);
        }
        let c0 = u[0];
        if char_width_of(c0) > 1 {
            return None;
        }
        let ghost rest = u@.drop_first();
        let sharp = n > 1 && (u[1] == '#' || u[1] == 'S');
        let flat = !sharp && n > 2 && u[1] == 'B';
        let acc: i128 = if sharp {
            1
        } else if flat {
            -1
        } else {
            0
        };
        let start: usize = if sharp || flat {
            2
        } else {
            1
        };
        assert(u@.subrange(start as int, n as int) =~= if sharp || flat {
            rest.drop_first()
        } else {
            rest
        });
        let o = match parse_int_range(u, start, n, -128, 127) {
            Err(_) => return Some(None),
            Ok(o) => o,
        };
        let off: i128 = if c0 == 'C' {
            0
        } else if c0 == 'D' {
            2
        } else if c0 == 'E' {
            4
        } else if c0 == 'F' {
            5
        } else if c0 == 'G' {
            7
        } else if c0 == 'A' {
            9
        } else if c0 == 'B' {
            11
        } else {
            return Some(None);
        };
        let t1 = o + 1;
        if t1 > 127 {
            return None;
        }
        let t2 = t1 * 12;
        if t2 < -128 || t2 > 127 {
            return None;
        }
        let t3 = t2 + off;
        if t3 > 127 {
            return None;
        }
        let t4 = t3 + acc;
        if t4 < -128 || t4 > 127 {
            return None;
        }
        if 0 <= t4 && t4 <= 127 {
            Some(Some(MidiNote(t4 as u8)))
        } else {
            Some(None)
        }
    }

    /// Reads the note name `s[lo..hi]`.
    pub(crate) fn read_range(s: &Vec<char>, lo: usize, hi: usize) -> (r: Option<Option<MidiNote>>)
        requires
            lo <= hi <= s.len(),
        ensures
            match r {
                None => from_name_outcome(s@.subrange(lo as int, hi as int)) is None,
                Some(None) => from_name_outcome(s@.subrange(lo as int, hi as int)) == Some(
                    None::<u8>,
                ),
                Some(Some(m)) => from_name_outcome(s@.subrange(lo as int, hi as int)) == Some(
                    Some(m.0),
                ),
            },
            is_ascii_text(trim(s@.subrange(lo as int, hi as int))) ==> upper_midi_note_outcome(
                ascii_upper(trim(s@.subrange(lo as int, hi as int))),
            ) == from_name_outcome(s@.subrange(lo as int, hi as int)),
    {
        let (a, b) = trim_range(s, lo, hi);
        let trimmed = copy_range(s, a, b);
        let upper = to_uppercase(&trimmed);
        Self::read_upper(&upper)
    }

    /// Reads a note name like `from_name`; `None` on the inputs on which
    /// the reading does not finish, where `from_name` is not called.
    pub fn try_from_name(name: &str) -> (r: Option<Option<MidiNote>>)
        ensures
            match r {
                None => from_name_outcome(name@) is None,
                Some(None) => from_name_outcome(name@) == Some(None::<u8>),
                Some(Some(m)) => from_name_outcome(name@) == Some(Some(m.0)),
            },
            is_ascii_text(trim(name@)) ==> upper_midi_note_outcome(ascii_upper(trim(name@)))
                == from_name_outcome(name@),
    {
        let chars = chars_of(name);
        assert(chars@.subrange(0, chars@.len() as int) =~= chars@);
        match Self::read_range(&chars, 0, chars.len()) {
            None => None,
            Some(_) => Some(Self::from_name(name)),
        }
    }

    /// Reads a note name such as `C4`, `C#4`, `Bb3`.
    pub fn from_name(name: &str) -> (r: Option<MidiNote>)
        requires
            (if is_ascii_text(trim(name@)) {
                upper_midi_note_outcome(ascii_upper(trim(name@)))
            } else {
                from_name_outcome(name@)
            }) is Some,
        ensures
            match r {
                None => from_name_outcome(name@) == Some(None::<u8>),
                Some(m) => from_name_outcome(name@) == Some(Some(m.0)),
            },
            is_ascii_text(trim(name@)) ==> upper_midi_note_outcome(ascii_upper(trim(name@)))
                == from_name_outcome(name@),
    {
        let chars = chars_of(name);
        assert(chars@.subrange(0, chars@.len() as int) =~= chars@);
        Self::read_range(&chars, 0, chars.len()).unwrap()
    }

    /// The note's name with `#` for sharps and its octave, such as `C#4`.
    pub fn to_name(self) -> (r: String)
        ensures
            r@ == note_name(self.0),
    {
        let mut out: Vec<char> = Vec::new();
        push_pitch_class_name(&mut out, self.0 % 12);
        let octave: i64 = (self.0 / 12) as i64 - 1;
        push_signed(&mut out, octave);
        assert(out@ =~= note_name(self.0));
        string_from_chars(&out)
    }
}


proof fn lemma_one_digit(c: char)
    requires
        is_dec_digit(c),
    ensures
        accumulate_up(seq![c], 127) == Ok::<int, IntErrorKind>(digit_value(c)),
        accumulate_down(seq![c], -128) == Ok::<int, IntErrorKind>(-digit_value(c)),
{
    reveal_with_fuel(accumulate_up, 2);
    reveal_with_fuel(accumulate_down, 2);
    assert(seq![c].drop_last() =~= Seq::<char>::empty());
    assert(seq![c].last() == c);
}

proof fn lemma_octave_reads_back(o: int)
    requires
        -1 <= o <= 9,
    ensures
        parse_int(fmt_int(o), -128, 127) == Ok::<int, IntErrorKind>(o),
        fmt_int(o).len() > 0,
        fmt_int(o)[0] != '#' && fmt_int(o)[0] != 'S' && fmt_int(o)[0] != 'B',
{
    if o == -1 {
        assert(dec_digits(1) == seq!['1']);
        assert(fmt_int(-1) =~= seq!['-', '1']);
        assert(seq!['-', '1'].drop_first() =~= seq!['1']);
        lemma_one_digit('1');
    } else {
        let c = digit_char(o);
        assert(fmt_int(o) == seq![c]);
        assert(is_dec_digit(c) && digit_value(c) == o);
        lemma_one_digit(c);
    }
}

/// A note's name, read back (it is already in upper case), gives the note:
/// naming and reading are inverse on 0..=127.
pub proof fn lemma_note_name_reads_back(n: u8)
    requires
        n <= 127,
    ensures
        upper_midi_note_outcome(note_name(n)) == Some(Some(n)),
{
    let p = n as int % 12;
    let o = n as int / 12 - 1;
    lemma_octave_reads_back(o);
    let name = note_name(n);
    let oct = fmt_int(o);
    assert(name == pitch_class_name(p) + oct);
    if p == 1 || p == 3 || p == 6 || p == 8 || p == 10 {
        assert(name.drop_first() =~= seq!['#'] + oct);
        assert(name.drop_first().drop_first() =~= oct);
    } else {
        assert(name.drop_first() =~= oct);
    }
}

/// `S` after the letter spells a sharp just as `#` does: replacing the `#`
/// of any upper-cased name by `S` reads the same.
pub proof fn lemma_s_spells_a_sharp(u: Seq<char>)
    requires
        u.len() > 1,
        u[1] == '#',
    ensures
        upper_midi_note_outcome(u.update(1, 'S')) == upper_midi_note_outcome(u),
{
    let v = u.update(1, 'S');
    assert(v[0] == u[0]);
    assert(v.drop_first()[0] == 'S');
    assert(v.drop_first().drop_first() =~= u.drop_first().drop_first());
}

/// Every sharp note in 0..=127 written with `S` for the sharp (as in
/// `CS4`) reads as that note, like its `#` spelling.
pub proof fn lemma_s_sharp_names_read(n: u8)
    requires
        n <= 127,
        note_name(n)[1] == '#',
    ensures
        upper_midi_note_outcome(note_name(n).update(1, 'S')) == Some(Some(n)),
{
    lemma_note_name_reads_back(n);
    let p = n as int % 12;
    let o = n as int / 12 - 1;
    lemma_octave_reads_back(o);
    assert(note_name(n) == pitch_class_name(p) + fmt_int(o));
    lemma_s_spells_a_sharp(note_name(n));
}

/// A note's name is trimmed, ASCII and already upper case, so the reader,
/// which trims and upper-cases first, reads it back as the note:
/// `MidiNote::from_name(&MidiNote(n).to_name())` is `Some(MidiNote(n))` for
/// every note in 0..=127.
pub proof fn lemma_from_name_inverts_to_name(n: u8)
    requires
        n <= 127,
    ensures
        trim(note_name(n)) == note_name(n),
        is_ascii_text(note_name(n)),
        ascii_upper(note_name(n)) == note_name(n),
        upper_midi_note_outcome(ascii_upper(trim(note_name(n)))) == Some(Some(n)),
{
    let p = n as int % 12;
    let o = n as int / 12 - 1;
    let pn = pitch_class_name(p);
    let on = fmt_int(o);
    let name = note_name(n);
    crate::text::lemma_fmt_int_read(o, -128, 127);
    assert(name == pn + on);
    let letter = pn[0];
    assert(letter == 'C' || letter == 'D' || letter == 'E' || letter == 'F' || letter == 'G'
        || letter == 'A' || letter == 'B');
    assert(pn.len() == 1 || (pn.len() == 2 && pn[1] == '#'));
    assert(name[0] == letter);
    assert(name.last() == on.last());
    lemma_trim_of_trimmed(name);
    assert forall|i: int| 0 <= i < name.len() implies (#[trigger] name[i] as u32) < 128 by {
        if i >= pn.len() {
            assert(name[i] == on[i - pn.len()]);
        }
    }
    assert forall|i: int| 0 <= i < name.len() implies #[trigger] ascii_upper(name)[i] == name[i] by {
        if i >= pn.len() {
            assert(name[i] == on[i - pn.len()]);
        }
    }
    assert(ascii_upper(name) =~= name);
    lemma_note_name_reads_back(n);
}

/// Notes as values, for comparing a `Vec<MidiNote>` with a sequence of
/// numbers.
pub open spec fn note_numbers(v: Seq<MidiNote>) -> Seq<u8> {
    v.map_values(|m: MidiNote| m.0)
}

pub open spec fn spec_outcome_view(r: Option<Result<Vec<MidiNote>, NoteSpecError>>) -> Option<
    Result<Seq<u8>, NoteSpecErrorView>,
> {
    match r {
        None => None,
        Some(Ok(v)) => Some(Ok(note_numbers(v@))),
        Some(Err(e)) => Some(Err(e@)),
    }
}

pub open spec fn velocity_outcome_view(r: Option<Result<Vec<u8>, NoteSpecError>>) -> Option<
    Result<Seq<u8>, NoteSpecErrorView>,
> {
    match r {
        None => None,
        Some(Ok(v)) => Some(Ok(v@)),
        Some(Err(e)) => Some(Err(e@)),
    }
}

/// Reading each comma-separated piece (trimmed) as a note, left to right;
/// a failure names the untrimmed piece.
pub open spec fn midi_note_list_outcome(parts: Seq<Seq<char>>) -> Option<
    Result<Seq<u8>, NoteSpecErrorView>,
>
    decreases parts.len(),
{
    if parts.len() == 0 {
        Some(Ok(seq![]))
    } else {
        match midi_note_list_outcome(parts.drop_last()) {
            None => None,
            Some(Err(e)) => Some(Err(e)),
            Some(Ok(v)) => match from_name_outcome(trim(parts.last())) {
                None => None,
                Some(None) => Some(Err(NoteSpecErrorView::InvalidNote(parts.last()))),
                Some(Some(n)) => Some(Ok(v.push(n))),
            },
        }
    }
}

/// What `parse_notes` gives for `spec`: a range `C2..C6` (which must not
/// run downwards), a list `C2,D2,E2`, or one note.
pub open spec fn midi_notes_outcome(spec: Seq<char>) -> Option<Result<Seq<u8>, NoteSpecErrorView>> {
    if contains(spec, dots()) {
        let parts = split(spec, dots());
        if parts.len() != 2 {
            Some(Err(NoteSpecErrorView::InvalidNoteRange(spec)))
        } else {
            match from_name_outcome(parts[0]) {
                None => None,
                Some(None) => Some(Err(NoteSpecErrorView::InvalidStartNote(parts[0]))),
                Some(Some(a)) => match from_name_outcome(parts[1]) {
                    None => None,
                    Some(None) => Some(Err(NoteSpecErrorView::InvalidEndNote(parts[1]))),
                    Some(Some(b)) => if a > b {
                        Some(Err(NoteSpecErrorView::StartAfterEnd))
                    } else {
                        Some(Ok(range_seq(a as int, b as int)))
                    },
                },
            }
        }
    } else if contains(spec, seq![',']) {
        midi_note_list_outcome(split(spec, seq![',']))
    } else {
        match from_name_outcome(spec) {
            None => None,
            Some(None) => Some(Err(NoteSpecErrorView::InvalidNote(spec))),
            Some(Some(n)) => Some(Ok(seq![n])),
        }
    }
}

proof fn lemma_midi_note_list_prefix_stop(ps: Seq<Seq<char>>, k: int)
    requires
        0 <= k <= ps.len(),
        !(midi_note_list_outcome(ps.take(k)) matches Some(Ok(_))),
    ensures
        midi_note_list_outcome(ps) == midi_note_list_outcome(ps.take(k)),
    decreases ps.len(),
{
    if k < ps.len() {
        assert(ps.drop_last().take(k) =~= ps.take(k));
        lemma_midi_note_list_prefix_stop(ps.drop_last(), k);
    } else {
        assert(ps.take(k) =~= ps);
    }
}

fn notes_of_range(out: &mut Vec<MidiNote>, a: u8, b: u8)
    requires
        old(out)@.len() == 0,
        a <= b,
    ensures
        note_numbers(final(out)@) == range_seq(a as int, b as int),
{
    let mut v = a;
    loop
        invariant
            a <= v <= b,
            note_numbers(out@) == range_seq(a as int, v as int - 1),
        decreases b - v,
    {
        let ghost before = out@;
        out.push(MidiNote(v));
        assert(note_numbers(out@) =~= note_numbers(before).push(v));
        assert(note_numbers(out@) =~= range_seq(a as int, v as int));
        if v == b {
            return;
        }
        v = v + 1;
    }
}

/// Reads a note specification: `C2..C6`, `C2,D2,E2`, or one note; `None`
/// on the inputs on which the reading does not finish.
fn read_notes(spec: &str) -> (r: Option<Result<Vec<MidiNote>, NoteSpecError>>)
    ensures
        spec_outcome_view(r) == midi_notes_outcome(spec@),
{
    let chars = chars_of(spec);
    let n = chars.len();
    assert(chars@.subrange(0, n as int) =~= chars@);
    let dd = vec!['.', '.'];
    assert(dd@ == dots());
    let comma = vec![','];
    assert(comma@ == seq![',']);
    if crate::text::find_in(&chars, 0, n, &dd).is_some() {
        let parts = split_ranges(&chars, 0, n, &dd);
        if parts.len() != 2 {
            return Some(Err(NoteSpecError::InvalidNoteRange(spec.to_owned())));
        }
        assert(pieces(chars@, parts@)[0] == chars@.subrange(parts@[0].0 as int, parts@[0].1 as int));
        assert(pieces(chars@, parts@)[1] == chars@.subrange(parts@[1].0 as int, parts@[1].1 as int));
        let a = match MidiNote::read_range(&chars, parts[0].0, parts[0].1) {
            None => return None,
            Some(None) => return Some(
                Err(NoteSpecError::InvalidStartNote(string_of_range(&chars, parts[0].0, parts[0].1))),
            ),
            Some(Some(a)) => a,
        };
        let b = match MidiNote::read_range(&chars, parts[1].0, parts[1].1) {
            None => return None,
            Some(None) => return Some(
                Err(NoteSpecError::InvalidEndNote(string_of_range(&chars, parts[1].0, parts[1].1))),
            ),
            Some(Some(b)) => b,
        };
        if a.0 > b.0 {
            return Some(Err(NoteSpecError::StartAfterEnd));
        }
        let mut out: Vec<MidiNote> = Vec::new();
        notes_of_range(&mut out, a.0, b.0);
        return Some(Ok(out));
    }
    if crate::text::find_in(&chars, 0, n, &comma).is_some() {
        let items = split_ranges(&chars, 0, n, &comma);
        let ghost ps = pieces(chars@, items@);
        let mut out: Vec<MidiNote> = Vec::new();
        let mut i: usize = 0;
        assert(ps.take(0) =~= Seq::<Seq<char>>::empty());
        assert(note_numbers(out@) =~= Seq::<u8>::empty());
        assert(midi_notes_outcome(spec@) == midi_note_list_outcome(ps));
        while i < items.len()
            invariant
                i <= items.len(),
                midi_notes_outcome(spec@) == midi_note_list_outcome(ps),
                ps == pieces(chars@, items@),
                forall|k: int| 0 <= k < items.len() ==> (#[trigger] items@[k]).0 <= items@[k].1
                    <= chars.len(),
                midi_note_list_outcome(ps.take(i as int)) == Some(
                    Ok::<Seq<u8>, NoteSpecErrorView>(note_numbers(out@)),
                ),
            decreases items.len() - i,
        {
            let (p, q) = items[i];
            assert(ps.take(i + 1).drop_last() =~= ps.take(i as int));
            assert(ps.take(i + 1).last() == chars@.subrange(p as int, q as int));
            let (a, b) = trim_range(&chars, p, q);
            match MidiNote::read_range(&chars, a, b) {
                None => {
                    proof {
                        lemma_midi_note_list_prefix_stop(ps, i as int + 1);
                    }
                    return None;
                },
                Some(None) => {
                    proof {
                        lemma_midi_note_list_prefix_stop(ps, i as int + 1);
                    }
                    return Some(Err(NoteSpecError::InvalidNote(string_of_range(&chars, p, q))));
                },
                Some(Some(m)) => {
                    let ghost before = out@;
                    out.push(m);
                    assert(note_numbers(out@) =~= note_numbers(before).push(m.0));
                },
            }
            i = i + 1;
        }
        assert(ps.take(items.len() as int) =~= ps);
        return Some(Ok(out));
    }
    match MidiNote::read_range(&chars, 0, n) {
        None => None,
        Some(None) => Some(Err(NoteSpecError::InvalidNote(spec.to_owned()))),
        Some(Some(m)) => {
            let mut out: Vec<MidiNote> = Vec::new();
            out.push(m);
            assert(note_numbers(out@) =~= seq![m.0]);
            Some(Ok(out))
        },
    }
}

/// Reads a note specification: `C2..C6`, `C2,D2,E2`, or one note.
pub fn parse_notes(spec: &str) -> (r: Result<Vec<MidiNote>, NoteSpecError>)
    requires
        midi_notes_outcome(spec@) is Some,
    ensures
        midi_notes_outcome(spec@) == Some(
            match r {
                Ok(v) => Ok::<Seq<u8>, NoteSpecErrorView>(note_numbers(v@)),
                Err(e) => Err(e@),
            },
        ),
{
    read_notes(spec).unwrap()
}

/// Reads a note specification like `parse_notes`; `None` on the inputs on
/// which the reading does not finish, where `parse_notes` is not called.
pub fn try_parse_notes(spec: &str) -> (r: Option<Result<Vec<MidiNote>, NoteSpecError>>)
    ensures
        spec_outcome_view(r) == midi_notes_outcome(spec@),
{
    match read_notes(spec) {
        None => None,
        Some(_) => Some(parse_notes(spec)),
    }
}


/// `v, v + step, …` while not above `end` (`step > 0`).
pub open spec fn up_to(v: int, end: int, step: int) -> Seq<u8>
    decreases end - v,
{
    if v > end || step <= 0 {
        seq![]
    } else if v + step > end {
        seq![v as u8]
    } else {
        seq![v as u8] + up_to(v + step, end, step)
    }
}

pub open spec fn valid_velocity(v: int) -> bool {
    1 <= v && v <= 127
}

/// Reading each comma-separated piece (trimmed) as a velocity in 1..=127.
pub open spec fn midi_velocity_list_outcome(parts: Seq<Seq<char>>) -> Result<
    Seq<u8>,
    NoteSpecErrorView,
>
    decreases parts.len(),
{
    if parts.len() == 0 {
        Ok(seq![])
    } else {
        match midi_velocity_list_outcome(parts.drop_last()) {
            Err(e) => Err(e),
            Ok(v) => match u8_of(trim(parts.last())) {
                Err(k) => Err(NoteSpecErrorView::InvalidNumber(k)),
                Ok(x) => if !valid_velocity(x) {
                    Err(NoteSpecErrorView::VelocityOutOfRange)
                } else {
                    Ok(v.push(x as u8))
                },
            },
        }
    }
}

/// The velocities of `start..end` with a step (1 when none is given), with
/// both ends checked to lie in 1..=127; `None` where the loop that lists
/// them would not end (a zero step) or its `u8` arithmetic overflows.
pub open spec fn midi_stepped_outcome(start: int, end: int, step: int) -> Option<Seq<u8>> {
    if start <= end {
        if step > end || step == 0 {
            None
        } else {
            Some(up_to(start, end, step))
        }
    } else if end + step > 255 || step == 0 {
        None
    } else {
        Some(desc_from(start, end, step))
    }
}

/// What `parse_velocities` gives for `spec`: `127..1:8`, `1..127` (step 1),
/// `127,100,80`, or one value, each velocity in 1..=127.
pub open spec fn midi_velocities_outcome(spec: Seq<char>) -> Option<Result<Seq<u8>, NoteSpecErrorView>> {
    if contains(spec, dots()) {
        let has_colon = contains(spec, seq![':']);
        let colon_parts = split(spec, seq![':']);
        if has_colon && colon_parts.len() != 2 {
            Some(Err(NoteSpecErrorView::InvalidVelocityRange(spec)))
        } else {
            let step_read: Result<int, IntErrorKind> = if has_colon {
                u8_of(colon_parts[1])
            } else {
                Ok(1)
            };
            match step_read {
                Err(k) => Some(Err(NoteSpecErrorView::InvalidNumber(k))),
                Ok(step) => {
                    let range_part = if has_colon {
                        colon_parts[0]
                    } else {
                        spec
                    };
                    let parts = split(range_part, dots());
                    if parts.len() != 2 {
                        Some(Err(NoteSpecErrorView::InvalidVelocityRange(spec)))
                    } else {
                        match u8_of(parts[0]) {
                            Err(k) => Some(Err(NoteSpecErrorView::InvalidNumber(k))),
                            Ok(start) => match u8_of(parts[1]) {
                                Err(k) => Some(Err(NoteSpecErrorView::InvalidNumber(k))),
                                Ok(end) => if !valid_velocity(start) || !valid_velocity(end) {
                                    Some(Err(NoteSpecErrorView::VelocityOutOfRange))
                                } else {
                                    match midi_stepped_outcome(start, end, step) {
                                        None => None,
                                        Some(v) => Some(Ok(v)),
                                    }
                                },
                            },
                        }
                    }
                },
            }
        }
    } else if contains(spec, seq![',']) {
        Some(midi_velocity_list_outcome(split(spec, seq![','])))
    } else {
        match u8_of(spec) {
            Err(k) => Some(Err(NoteSpecErrorView::InvalidNumber(k))),
            Ok(v) => if !valid_velocity(v) {
                Some(Err(NoteSpecErrorView::VelocityOutOfRange))
            } else {
                Some(Ok(seq![v as u8]))
            },
        }
    }
}

/// The values that `midi_stepped_outcome` describes, for ends in 1..=127.
fn midi_stepped_values(start: u8, end: u8, step: u8) -> (r: Option<Vec<u8>>)
    requires
        valid_velocity(start as int),
        valid_velocity(end as int),
    ensures
        match r {
            None => midi_stepped_outcome(start as int, end as int, step as int) is None,
            Some(v) => midi_stepped_outcome(start as int, end as int, step as int) == Some(v@),
        },
{
    let mut out: Vec<u8> = Vec::new();
    if start <= end {
        if step > end || step == 0 {
            return None;
        }
        let mut v = start;
        loop
            invariant
                start <= v <= end,
                start <= end <= 127,
                0 < step <= end,
                out@ + up_to(v as int, end as int, step as int) == up_to(
                    start as int,
                    end as int,
                    step as int,
                ),
            decreases end - v,
        {
            let ghost before = out@;
            out.push(v);
            if v > end - step {
                assert(up_to(v as int, end as int, step as int) == seq![v]);
                assert(out@ =~= before + seq![v]);
                return Some(out);
            }
            assert(up_to(v as int, end as int, step as int) =~= seq![v] + up_to(
                v + step,
                end as int,
                step as int,
            ));
            assert(out@ + up_to(v + step, end as int, step as int) =~= before + up_to(
                v as int,
                end as int,
                step as int,
            ));
            v = v + step;
        }
    } else {
        if end as u16 + step as u16 > 255 || step == 0 {
            return None;
        }
        let mut v = start;
        loop
            invariant
                end <= v <= start,
                start > end,
                step > 0,
                end + step <= 255,
                out@ + desc_from(v as int, end as int, step as int) == desc_from(
                    start as int,
                    end as int,
                    step as int,
                ),
            decreases v,
        {
            let ghost before = out@;
            out.push(v);
            if v < end + step {
                assert(desc_from(v as int, end as int, step as int) == seq![v]);
                assert(out@ =~= before + seq![v]);
                return Some(out);
            }
            assert(desc_from(v as int, end as int, step as int) =~= seq![v] + desc_from(
                v - step,
                end as int,
                step as int,
            ));
            assert(out@ + desc_from(v - step, end as int, step as int) =~= before + desc_from(
                v as int,
                end as int,
                step as int,
            ));
            v = v - step;
        }
    }
}

proof fn lemma_midi_velocity_list_prefix_stop(ps: Seq<Seq<char>>, k: int)
    requires
        0 <= k <= ps.len(),
        midi_velocity_list_outcome(ps.take(k)) is Err,
    ensures
        midi_velocity_list_outcome(ps) == midi_velocity_list_outcome(ps.take(k)),
    decreases ps.len(),
{
    if k < ps.len() {
        assert(ps.drop_last().take(k) =~= ps.take(k));
        lemma_midi_velocity_list_prefix_stop(ps.drop_last(), k);
    } else {
        assert(ps.take(k) =~= ps);
    }
}

/// Reads a velocity specification: `127..1:8`, `1..127`, `127,100,80`, or
/// one value; `None` on the inputs on which the reading does not finish.
#[verifier::spinoff_prover]
#[verifier::rlimit(30)]
fn read_velocities(spec: &str) -> (r: Option<Result<Vec<u8>, NoteSpecError>>)
    ensures
        velocity_outcome_view(r) == midi_velocities_outcome(spec@),
{
    let chars = chars_of(spec);
    let n = chars.len();
    assert(chars@.subrange(0, n as int) =~= chars@);
    let dd = vec!['.', '.'];
    assert(dd@ == dots());
    let colon = vec![':'];
    assert(colon@ == seq![':']);
    let comma = vec![','];
    assert(comma@ == seq![',']);
    if crate::text::find_in(&chars, 0, n, &dd).is_some() {
        let has_colon = crate::text::find_in(&chars, 0, n, &colon).is_some();
        let colon_parts = split_ranges(&chars, 0, n, &colon);
        if has_colon && colon_parts.len() != 2 {
            return Some(Err(NoteSpecError::InvalidVelocityRange(spec.to_owned())));
        }
        let (rlo, rhi, step) = if has_colon {
            assert(pieces(chars@, colon_parts@)[0] == chars@.subrange(
                colon_parts@[0].0 as int,
                colon_parts@[0].1 as int,
            ));
            assert(pieces(chars@, colon_parts@)[1] == chars@.subrange(
                colon_parts@[1].0 as int,
                colon_parts@[1].1 as int,
            ));
            let step = match u8_in_range(&chars, colon_parts[1].0, colon_parts[1].1) {
                Ok(v) => v,
                Err(k) => return Some(Err(NoteSpecError::InvalidNumber(k))),
            };
            (colon_parts[0].0, colon_parts[0].1, step)
        } else {
            (0, n, 1u8)
        };
        let parts = split_ranges(&chars, rlo, rhi, &dd);
        if parts.len() != 2 {
            return Some(Err(NoteSpecError::InvalidVelocityRange(spec.to_owned())));
        }
        assert(pieces(chars@, parts@)[0] == chars@.subrange(parts@[0].0 as int, parts@[0].1 as int));
        assert(pieces(chars@, parts@)[1] == chars@.subrange(parts@[1].0 as int, parts@[1].1 as int));
        let start = match u8_in_range(&chars, parts[0].0, parts[0].1) {
            Ok(v) => v,
            Err(k) => return Some(Err(NoteSpecError::InvalidNumber(k))),
        };
        let end = match u8_in_range(&chars, parts[1].0, parts[1].1) {
            Ok(v) => v,
            Err(k) => return Some(Err(NoteSpecError::InvalidNumber(k))),
        };
        if start == 0 || end == 0 || start > 127 || end > 127 {
            return Some(Err(NoteSpecError::VelocityOutOfRange));
        }
        return match midi_stepped_values(start, end, step) {
            None => None,
            Some(v) => Some(Ok(v)),
        };
    }
    if crate::text::find_in(&chars, 0, n, &comma).is_some() {
        let items = split_ranges(&chars, 0, n, &comma);
        let ghost ps = pieces(chars@, items@);
        let mut out: Vec<u8> = Vec::new();
        let mut i: usize = 0;
        assert(ps.take(0) =~= Seq::<Seq<char>>::empty());
        assert(midi_velocities_outcome(spec@) == Some(midi_velocity_list_outcome(ps)));
        while i < items.len()
            invariant
                i <= items.len(),
                midi_velocities_outcome(spec@) == Some(midi_velocity_list_outcome(ps)),
                ps == pieces(chars@, items@),
                forall|k: int| 0 <= k < items.len() ==> (#[trigger] items@[k]).0 <= items@[k].1
                    <= chars.len(),
                midi_velocity_list_outcome(ps.take(i as int)) == Ok::<Seq<u8>, NoteSpecErrorView>(
                    out@,
                ),
            decreases items.len() - i,
        {
            let (p, q) = items[i];
            assert(ps.take(i + 1).drop_last() =~= ps.take(i as int));
            assert(ps.take(i + 1).last() == chars@.subrange(p as int, q as int));
            let (a, b) = trim_range(&chars, p, q);
            match u8_in_range(&chars, a, b) {
                Err(k) => {
                    proof {
                        lemma_midi_velocity_list_prefix_stop(ps, i as int + 1);
                    }
                    return Some(Err(NoteSpecError::InvalidNumber(k)));
                },
                Ok(v) => {
                    if v == 0 || v > 127 {
                        proof {
                            lemma_midi_velocity_list_prefix_stop(ps, i as int + 1);
                        }
                        return Some(Err(NoteSpecError::VelocityOutOfRange));
                    }
                    out.push(v);
                },
            }
            i = i + 1;
        }
        assert(ps.take(items.len() as int) =~= ps);
        return Some(Ok(out));
    }
    match u8_in_range(&chars, 0, n) {
        Err(k) => Some(Err(NoteSpecError::InvalidNumber(k))),
        Ok(v) => {
            if v == 0 || v > 127 {
                return Some(Err(NoteSpecError::VelocityOutOfRange));
            }
            let mut out: Vec<u8> = Vec::new();
            out.push(v);
            assert(out@ =~= seq![v]);
            Some(Ok(out))
        },
    }
}

/// Reads a velocity specification: `127..1:8`, `1..127`, `127,100,80`, or
/// one value.
pub fn parse_velocities(spec: &str) -> (r: Result<Vec<u8>, NoteSpecError>)
    requires
        midi_velocities_outcome(spec@) is Some,
    ensures
        midi_velocities_outcome(spec@) == Some(
            match r {
                Ok(v) => Ok::<Seq<u8>, NoteSpecErrorView>(v@),
                Err(e) => Err(e@),
            },
        ),
{
    read_velocities(spec).unwrap()
}

/// Reads a velocity specification like `parse_velocities`; `None` on the
/// inputs on which the reading does not finish, where `parse_velocities` is
/// not called.
pub fn try_parse_velocities(spec: &str) -> (r: Option<Result<Vec<u8>, NoteSpecError>>)
    ensures
        velocity_outcome_view(r) == midi_velocities_outcome(spec@),
{
    match read_velocities(spec) {
        None => None,
        Some(_) => Some(parse_velocities(spec)),
    }
}

/// One recording to make for a note.
#[derive(Debug, Clone, Copy, PartialEq, Eq, Structural)]
pub struct SampleJob {
    pub note: MidiNote,
    pub velocity: u8,
    pub rr_index: u32,
}

/// `s` with every `#` replaced by `s`.
pub open spec fn sharps_as_s(s: Seq<char>) -> Seq<char> {
    s.map_values(|c: char| if c == '#' { 's' } else { c })
}

/// `<prefix>_<name with s for #>_<note:03>_vel<velocity:03>_rr<rr:02>.<ext>`.
pub open spec fn sample_filename(prefix: Seq<char>, note: u8, velocity: u8, rr: u32, ext: Seq<char>) -> Seq<char> {
    prefix + seq!['_'] + sharps_as_s(note_name(note)) + seq!['_'] + zero_pad(
        dec_digits(note as nat),
        3,
    ) + seq!['_', 'v', 'e', 'l'] + zero_pad(dec_digits(velocity as nat), 3) + seq!['_', 'r', 'r'] + zero_pad(
        dec_digits(rr as nat),
        2,
    ) + seq!['.'] + ext
}

/// The file name for a sample, such as `Piano_C4_060_vel127_rr01.wav`.
pub fn format_filename(prefix: &str, note: MidiNote, velocity: u8, rr: u32, ext: &str) -> (r: String)
    ensures
        r@ == sample_filename(prefix@, note.0, velocity, rr, ext@),
{
    let mut out: Vec<char> = chars_of(prefix);
    out.push('_');
    let name = chars_of(&note.to_name());
    let ghost before = out@;
    let mut i: usize = 0;
    while i < name.len()
        invariant
            i <= name.len(),
            out@ == before + sharps_as_s(name@.take(i as int)),
        decreases name.len() - i,
    {
        let c = name[i];
        out.push(if c == '#' {
            's'
        } else {
            c
        });
        assert(sharps_as_s(name@.take(i + 1)) =~= sharps_as_s(name@.take(i as int)).push(
            if c == '#' {
                's'
            } else {
                c
            },
        ));
        i = i + 1;
    }
    assert(name@.take(name.len() as int) =~= name@);
    out.push('_');
    push_decimal(&mut out, note.0 as u64, 3);
    push_all(&mut out, &vec!['_', 'v', 'e', 'l']);
    push_decimal(&mut out, velocity as u64, 3);
    push_all(&mut out, &vec!['_', 'r', 'r']);
    push_decimal(&mut out, rr as u64, 2);
    out.push('.');
    let e = chars_of(ext);
    push_all(&mut out, &e);
    assert(out@ =~= sample_filename(prefix@, note.0, velocity, rr, ext@));
    string_from_chars(&out)
}

/// `<note:03>_<name>`, the folder a note's takes go to, such as `061_C#4`.
pub open spec fn note_folder_name(note: u8) -> Seq<char> {
    zero_pad(dec_digits(note as nat), 3) + seq!['_'] + note_name(note)
}

/// The folder for a note's takes.
pub fn note_directory_name(note: MidiNote) -> (r: String)
    ensures
        r@ == note_folder_name(note.0),
{
    let mut out: Vec<char> = Vec::new();
    push_decimal(&mut out, note.0 as u64, 3);
    out.push('_');
    let name = chars_of(&note.to_name());
    push_all(&mut out, &name);
    string_from_chars(&out)
}

/// A take is already there when its WAV or its MP3 file exists.
pub fn take_exists(wav_exists: bool, mp3_exists: bool) -> (r: bool)
    ensures
        r == (wav_exists || mp3_exists),
{
    wav_exists || mp3_exists
}

/// Stepping up from `v` to `end` lists `v, v + step, …`: the
/// `(end - v) / step + 1` values that do not pass `end`.
#[verifier::spinoff_prover]
pub proof fn lemma_up_to_closed(v: int, end: int, step: int)
    requires
        v <= end,
        step >= 1,
    ensures
        up_to(v, end, step) == run_up(v, step, ((end - v) / step + 1) as nat),
        (end - v) / step >= 0,
    decreases end - v,
{
    let n = (end - v) / step;
    if v + step > end {
        assert((end - v) / step == 0) by (nonlinear_arith)
            requires
                0 <= end - v < step,
        ;
        assert(run_up(v, step, 1) =~= seq![v as u8]);
    } else {
        lemma_up_to_closed(v + step, end, step);
        assert((end - v - step) / step + 1 == (end - v) / step) by (nonlinear_arith)
            requires
                end - v >= step,
                step >= 1,
        ;
        assert(end - (v + step) == (end - v) - step);
        let rest = run_up(v + step, step, ((end - v - step) / step + 1) as nat);
        assert(rest.len() == n);
        assert forall|i: int| 0 <= i < n + 1 implies #[trigger] run_up(v, step, (n + 1) as nat)[i]
            == (seq![v as u8] + rest)[i] by {
            if i > 0 {
                assert((seq![v as u8] + rest)[i] == rest[i - 1]);
                assert(rest[i - 1] == ((v + step) + (i - 1) * step) as u8);
                assert((v + step) + (i - 1) * step == v + i * step) by (nonlinear_arith);
            }
        }
        assert(run_up(v, step, (n + 1) as nat) =~= seq![v as u8] + rest);
    }
}

proof fn lemma_velocity_digits(n: nat)
    requires
        n <= 255,
    ensures
        forall|j: int| 0 <= j < dec_digits(n).len() ==> #[trigger] dec_digits(n)[j] != '.'
            && dec_digits(n)[j] != ':',
        u8_of(dec_digits(n)) == Ok::<int, IntErrorKind>(n as int),
{
    crate::text::lemma_dec_digits_read(n, 255);
    crate::text::lemma_fmt_int_read(n as int, 0, 255);
}

/// The standalone recorder's velocity range `a..b:s` (written in decimal,
/// ends in 1..=127) lists `a, a + s, …` up to `b`, or `a, a - s, …` down to
/// `b`: every value that fits between the ends, in order. Left out are the
/// inputs on which the listing's byte arithmetic overflows: an ascending
/// step above `b`, a descending step with `b + s` above 255.
pub proof fn lemma_midi_stepped_velocities_read(spec: Seq<char>, a: nat, b: nat, s: nat)
    requires
        1 <= a <= 127,
        1 <= b <= 127,
        1 <= s <= 255,
        a <= b ==> s <= b,
        a > b ==> b + s <= 255,
        spec == dec_digits(a) + dots() + dec_digits(b) + seq![':'] + dec_digits(s),
    ensures
        midi_velocities_outcome(spec) == Some(
            Ok::<Seq<u8>, NoteSpecErrorView>(
                if a > b {
                    run_down(a as int, s as int, ((a - b) / (s as int) + 1) as nat)
                } else {
                    run_up(a as int, s as int, ((b - a) / (s as int) + 1) as nat)
                },
            ),
        ),
{
    let da = dec_digits(a);
    let db = dec_digits(b);
    let ds = dec_digits(s);
    let colon = seq![':'];
    lemma_velocity_digits(a);
    lemma_velocity_digits(b);
    lemma_velocity_digits(s);
    let head = da + dots() + db;
    assert(spec =~= head + colon + ds);
    assert(colon[0] == ':');
    assert forall|j: int| 0 <= j < head.len() implies #[trigger] head[j] != colon[0] by {
        if j < da.len() {
            assert(head[j] == da[j]);
        } else if j >= da.len() + 2 {
            assert(head[j] == db[j - da.len() - 2]);
        } else {
            assert(head[j] == dots()[j - da.len()]);
        }
    }
    crate::text::lemma_absent_first_char(ds, colon);
    crate::text::lemma_no_start_inside(head, colon, ds);
    crate::text::lemma_split_two(head, colon, ds);
    crate::text::lemma_absent_first_char(db, dots());
    crate::text::lemma_no_start_inside(da, dots(), db);
    crate::text::lemma_split_two(da, dots(), db);
    let rest = db + colon + ds;
    assert(spec =~= da + dots() + rest);
    assert forall|j: int| 0 <= j < rest.len() implies #[trigger] rest[j] != dots()[0] by {
        if j < db.len() {
            assert(rest[j] == db[j]);
        } else if j > db.len() {
            assert(rest[j] == ds[j - db.len() - 1]);
        }
    }
    crate::text::lemma_absent_first_char(rest, dots());
    crate::text::lemma_no_start_inside(da, dots(), rest);
    crate::text::lemma_split_two(da, dots(), rest);
    if a > b {
        lemma_desc_from_closed(a as int, b as int, s as int);
    } else {
        lemma_up_to_closed(a as int, b as int, s as int);
    }
}

/// The standalone recorder's velocity list: two velocities in 1..=127 in
/// decimal, separated by a comma, with any whitespace around each item,
/// read as those two velocities in order (each item is trimmed).
pub proof fn lemma_midi_velocity_pair_read(
    a: nat,
    b: nat,
    w0: Seq<char>,
    w1: Seq<char>,
    w2: Seq<char>,
    w3: Seq<char>,
)
    requires
        1 <= a <= 127,
        1 <= b <= 127,
        all_white_space(w0),
        all_white_space(w1),
        all_white_space(w2),
        all_white_space(w3),
    ensures
        midi_velocities_outcome(w0 + dec_digits(a) + w1 + seq![','] + w2 + dec_digits(b) + w3)
            == Some(Ok::<Seq<u8>, NoteSpecErrorView>(seq![a as u8, b as u8])),
{
    let x = w0 + dec_digits(a) + w1;
    let y = w2 + dec_digits(b) + w3;
    let spec = w0 + dec_digits(a) + w1 + seq![','] + w2 + dec_digits(b) + w3;
    lemma_padded_digits(a, w0, w1);
    lemma_padded_digits(b, w2, w3);
    assert(spec =~= x + seq![','] + y);
    assert forall|j: int| 0 <= j < spec.len() implies #[trigger] spec[j] != dots()[0] by {
        if j < x.len() {
            assert(spec[j] == x[j]);
        } else if j > x.len() {
            assert(spec[j] == y[j - x.len() - 1]);
        }
    }
    lemma_absent_first_char(spec, dots());
    lemma_no_start_inside(x, seq![','], y);
    lemma_absent_first_char(y, seq![',']);
    lemma_split_two(x, seq![','], y);
    let parts = seq![x, y];
    assert(parts.drop_last() =~= seq![x]);
    assert(seq![x].drop_last() =~= Seq::<Seq<char>>::empty());
    assert(seq![x].last() == x);
    assert(parts.last() == y);
    assert(midi_velocity_list_outcome(Seq::<Seq<char>>::empty()) == Ok::<Seq<u8>, NoteSpecErrorView>(
        seq![],
    ));
    assert(Seq::<u8>::empty().push(a as u8) =~= seq![a as u8]);
    assert(midi_velocity_list_outcome(seq![x]) == Ok::<Seq<u8>, NoteSpecErrorView>(seq![a as u8]));
    assert(seq![a as u8].push(b as u8) =~= seq![a as u8, b as u8]);
}

/// Adding an item to the standalone recorder's velocity list: a
/// specification `s` (with no `.`, not starting or ending with whitespace)
/// followed by a comma and a velocity in 1..=127 in decimal, with any
/// whitespace around it, reads as what `s` reads as with that velocity
/// appended; where `s` is refused, the longer list is refused the same way.
pub proof fn lemma_midi_velocity_list_appends(s: Seq<char>, w1: Seq<char>, b: nat, w2: Seq<char>)
    requires
        1 <= b <= 127,
        all_white_space(w1),
        all_white_space(w2),
        s.len() > 0,
        !is_white_space(s[0]),
        !is_white_space(s.last()),
        forall|j: int| 0 <= j < s.len() ==> #[trigger] s[j] != '.',
    ensures
        midi_velocities_outcome(s + seq![','] + w1 + dec_digits(b) + w2) == match midi_velocities_outcome(
            s,
        ) {
            Some(Ok(v)) => Some(Ok::<Seq<u8>, NoteSpecErrorView>(v.push(b as u8))),
            r => r,
        },
{
    let y = w1 + dec_digits(b) + w2;
    let c = seq![','];
    let t = s + seq![','] + w1 + dec_digits(b) + w2;
    lemma_padded_digits(b, w1, w2);
    assert(t =~= s + c + y);
    assert forall|j: int| 0 <= j < t.len() implies #[trigger] t[j] != dots()[0] by {
        if j < s.len() {
            assert(t[j] == s[j]);
        } else if j > s.len() {
            assert(t[j] == y[j - s.len() - 1]);
        }
    }
    lemma_absent_first_char(t, dots());
    lemma_absent_first_char(y, c);
    lemma_split_append(s, ',', y);
    assert(t.subrange(s.len() as int, s.len() as int + 1) =~= c);
    assert(matches_at(t, s.len() as int, c));
    lemma_find_from_range(t, c, 0);
    assert(contains(t, c));
    lemma_trim_of_trimmed(s);
    lemma_absent_first_char(s, dots());
    let ps = split(s, c);
    assert(ps.push(y).drop_last() =~= ps);
    assert(ps.push(y).last() == y);
    if !contains(s, c) {
        lemma_find_from_range(s, c, 0);
        assert(ps == seq![s]);
        assert(seq![s].drop_last() =~= Seq::<Seq<char>>::empty());
        assert(midi_velocity_list_outcome(Seq::<Seq<char>>::empty()) == Ok::<Seq<u8>, NoteSpecErrorView>(
            seq![],
        ));
        assert(seq![s].last() == s);
        assert(forall|x: u8| Seq::<u8>::empty().push(x) =~= seq![x]);
    }
}

/// The standalone recorder's velocity range `a..b` (written in decimal,
/// ends in 1..=127) lists every value from `a` to `b` in order, up or down.
pub proof fn lemma_midi_range_velocities_read(spec: Seq<char>, a: nat, b: nat)
    requires
        1 <= a <= 127,
        1 <= b <= 127,
        spec == dec_digits(a) + dots() + dec_digits(b),
    ensures
        midi_velocities_outcome(spec) == Some(
            Ok::<Seq<u8>, NoteSpecErrorView>(
                if a > b {
                    run_down(a as int, 1, (a - b + 1) as nat)
                } else {
                    run_up(a as int, 1, (b - a + 1) as nat)
                },
            ),
        ),
{
    let da = dec_digits(a);
    let db = dec_digits(b);
    lemma_velocity_digits(a);
    lemma_velocity_digits(b);
    crate::text::lemma_absent_first_char(db, dots());
    crate::text::lemma_no_start_inside(da, dots(), db);
    crate::text::lemma_split_two(da, dots(), db);
    assert forall|j: int| 0 <= j < spec.len() implies #[trigger] spec[j] != seq![':'][0] by {
        if j < da.len() {
            assert(spec[j] == da[j]);
        } else if j >= da.len() + 2 {
            assert(spec[j] == db[j - da.len() - 2]);
        } else {
            assert(spec[j] == dots()[j - da.len()]);
        }
    }
    crate::text::lemma_absent_first_char(spec, seq![':']);
    if a > b {
        lemma_desc_from_closed(a as int, b as int, 1);
        assert((a - b) / 1int == a - b);
    } else {
        lemma_up_to_closed(a as int, b as int, 1);
        assert((b - a) / 1int == b - a);
    }
}

} // verus!
