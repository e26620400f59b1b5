//! Choosing an audio input by index or name among the inputs the system
//! lists. Listing the inputs and opening the chosen one are the caller's.

use vstd::prelude::*;
use crate::engine::texts;
use crate::midi::{contains_chars, port_names_view};
use crate::text::{chars_of, concat_str, contains, parse_int, parse_int_range, str_to_lowercase, to_lowercase};

verus! {

/// The first input from `from` on whose name could be read and is `q`.
pub open spec fn first_named(names: Seq<Option<Seq<char>>>, q: Seq<char>, from: int) -> Option<int>
    decreases names.len() - from,
{
    if from < 0 || from >= names.len() {
        None
    } else if names[from] == Some(q) {
        Some(from)
    } else {
        first_named(names, q, from + 1)
    }
}

/// The first input from `from` on whose name is `q` ignoring case.
pub open spec fn first_named_folded(names: Seq<Option<Seq<char>>>, q: Seq<char>, from: int) -> Option<
    int,
>
    decreases names.len() - from,
{
    if from < 0 || from >= names.len() {
        None
    } else if names[from] matches Some(n) && str_to_lowercase(n) == str_to_lowercase(q) {
        Some(from)
    } else {
        first_named_folded(names, q, from + 1)
    }
}

/// The inputs before `upto` whose name contains `q` ignoring case, in
/// order.
pub open spec fn folded_matches(names: Seq<Option<Seq<char>>>, q: Seq<char>, upto: int) -> Seq<int>
    decreases upto,
{
    if upto <= 0 || upto > names.len() {
        Seq::empty()
    } else {
        let rest = folded_matches(names, q, upto - 1);
        if names[upto - 1] matches Some(n) && contains(
            str_to_lowercase(n),
            str_to_lowercase(q),
        ) {
            rest.push(upto - 1)
        } else {
            rest
        }
    }
}

/// The names that could be read, in order.
pub open spec fn readable_names(names: Seq<Option<Seq<char>>>, upto: int) -> Seq<Seq<char>>
    decreases upto,
{
    if upto <= 0 || upto > names.len() {
        Seq::empty()
    } else {
        let rest = readable_names(names, upto - 1);
        match names[upto - 1] {
            Some(n) => rest.push(n),
            None => rest,
        }
    }
}

/// Why no input was chosen.
pub enum AudioChoiceView {
    /// The text matches several names; holds those inputs.
    Ambiguous(Seq<int>),
    /// Nothing matches.
    NotFound,
}

/// Which input `q` chooses among inputs with the given names (`None` where
/// a name could not be read): a number below the count picks that input;
/// otherwise the first name equal to the text, then the first equal
/// ignoring case, then the only name containing it ignoring case.
pub open spec fn audio_input_chosen(names: Seq<Option<Seq<char>>>, q: Seq<char>) -> Result<
    int,
    AudioChoiceView,
> {
    match parse_int(q, 0, usize::MAX as int) {
        Ok(i) if i < names.len() => Ok(i),
        _ => match first_named(names, q, 0) {
            Some(i) => Ok(i),
            None => match first_named_folded(names, q, 0) {
                Some(i) => Ok(i),
                None => {
                    let m = folded_matches(names, q, names.len() as int);
                    if m.len() == 1 {
                        Ok(m[0])
                    } else if m.len() > 1 {
                        Err(AudioChoiceView::Ambiguous(m))
                    } else {
                        Err(AudioChoiceView::NotFound)
                    }
                },
            },
        },
    }
}

/// No single input was chosen.
#[derive(Debug, PartialEq, Eq)]
pub enum AudioInputError {
    /// Several names contain the text; holds them.
    Ambiguous { requested: String, matches: Vec<String> },
    /// Nothing matches; holds the names that could be read.
    NotFound { requested: String, available: Vec<String> },
}

/// The names of the given inputs, in order.
pub open spec fn names_at(names: Seq<Option<Seq<char>>>, idx: Seq<int>) -> Seq<Seq<char>> {
    idx.map_values(|i: int| names[i]->0)
}

/// `a, b, c`, or `(none)` for no items.
pub open spec fn listed(items: Seq<Seq<char>>) -> Seq<char> {
    if items.len() == 0 {
        "(none)"@
    } else {
        crate::midi::joined(items)
    }
}

impl AudioInputError {
    /// The text of this error.
    pub open spec fn text(&self) -> Seq<char> {
        match self {
            AudioInputError::Ambiguous { requested, matches } => "Audio device name '"@
                + requested@ + "' is ambiguous. Matches: "@ + crate::midi::joined(texts(matches@))
                + ". Select by numeric index instead."@,
            AudioInputError::NotFound { requested, available } => "Audio device not found: '"@
                + requested@ + "'. Available inputs: "@ + listed(texts(available@)),
        }
    }

    pub fn message(&self) -> (r: String)
        ensures
            r@ == self.text(),
    {
        match self {
            AudioInputError::Ambiguous { requested, matches } => {
                let a = concat_str("Audio device name '", requested.as_str());
                let b = concat_str(a.as_str(), "' is ambiguous. Matches: ");
                let j = join_texts(matches);
                let c = concat_str(b.as_str(), j.as_str());
                concat_str(c.as_str(), ". Select by numeric index instead.")
            },
            AudioInputError::NotFound { requested, available } => {
                let a = concat_str("Audio device not found: '", requested.as_str());
                let b = concat_str(a.as_str(), "'. Available inputs: ");
                if available.len() == 0 {
                    concat_str(b.as_str(), "(none)")
                } else {
                    let j = join_texts(available);
                    concat_str(b.as_str(), j.as_str())
                }
            },
        }
    }
}

fn join_texts(items: &Vec<String>) -> (r: String)
    ensures
        r@ == crate::midi::joined(texts(items@)),
{
    let r = crate::midi::join_comma(items);
    assert(items@.map_values(|s: String| s@) =~= texts(items@));
    r
}

/// `name` in lower case.
fn folded(name: &String) -> (r: Vec<char>)
    ensures
        r@ == str_to_lowercase(name@),
{
    let c = chars_of(name.as_str());
    to_lowercase(&c)
}

/// Chooses the audio input that `name_or_id` names among inputs with the
/// given names: see `audio_input_chosen`. When several names contain the
/// text, they are listed; when none matches, the readable names are.
pub fn choose_audio_input(names: &Vec<Option<String>>, name_or_id: &str) -> (r: Result<
    usize,
    AudioInputError,
>)
    ensures
        match r {
            Ok(i) => audio_input_chosen(port_names_view(names@), name_or_id@) == Ok::<
                int,
                AudioChoiceView,
            >(i as int),
            Err(AudioInputError::Ambiguous { requested, matches }) => {
                &&& requested@ == name_or_id@
                &&& audio_input_chosen(port_names_view(names@), name_or_id@) matches Err(
                    AudioChoiceView::Ambiguous(m),
                ) && texts(matches@) == names_at(port_names_view(names@), m)
            },
            Err(AudioInputError::NotFound { requested, available }) => {
                &&& requested@ == name_or_id@
                &&& audio_input_chosen(port_names_view(names@), name_or_id@) matches Err(
                    AudioChoiceView::NotFound,
                )
                &&& texts(available@) == readable_names(port_names_view(names@), names@.len() as int)
            },
        },
{
    let ghost nv = port_names_view(names@);
    let q = chars_of(name_or_id);
    match parse_int_range(&q, 0, q.len(), 0, usize::MAX as i128) {
        Ok(i) => {
            assert(q@.subrange(0, q.len() as int) =~= q@);
            if (i as usize) < names.len() {
                return Ok(i as usize);
            }
        },
        Err(_) => {
            assert(q@.subrange(0, q.len() as int) =~= q@);
        },
    }
    // Exact name.
    let mut j: usize = 0;
    while j < names.len()
        invariant
            j <= names.len(),
            nv == port_names_view(names@),
            first_named(nv, name_or_id@, 0) == first_named(nv, name_or_id@, j as int),
            !(parse_int(name_or_id@, 0, usize::MAX as int) matches Ok(i) && i < names.len()),
        decreases names.len() - j,
    {
        match &names[j] {
            Some(n) => {
                if crate::state::same_text(n.as_str(), name_or_id) {
                    return Ok(j);
                }
            },
            None => {},
        }
        j = j + 1;
    }
    // Equal ignoring case.
    let needle = to_lowercase(&q);
    let mut j: usize = 0;
    while j < names.len()
        invariant
            j <= names.len(),
            nv == port_names_view(names@),
            needle@ == str_to_lowercase(name_or_id@),
            first_named(nv, name_or_id@, 0) is None,
            first_named_folded(nv, name_or_id@, 0) == first_named_folded(nv, name_or_id@, j as int),
            !(parse_int(name_or_id@, 0, usize::MAX as int) matches Ok(i) && i < names.len()),
        decreases names.len() - j,
    {
        match &names[j] {
            Some(n) => {
                let f = folded(n);
                let nl = f.len();
                assert(f@.subrange(0, nl as int) =~= f@);
                if crate::text::range_equals(&f, 0, nl, &needle) {
                    return Ok(j);
                }
            },
            None => {},
        }
        j = j + 1;
    }
    // Containing, ignoring case.
    let mut hits: Vec<usize> = Vec::new();
    let mut hit_names: Vec<String> = Vec::new();
    let mut readable: Vec<String> = Vec::new();
    let mut j: usize = 0;
    while j < names.len()
        invariant
            j <= names.len(),
            nv == port_names_view(names@),
            needle@ == str_to_lowercase(name_or_id@),
            hits@.map_values(|i: usize| i as int) == folded_matches(nv, name_or_id@, j as int),
            texts(hit_names@) == names_at(nv, folded_matches(nv, name_or_id@, j as int)),
            texts(readable@) == readable_names(nv, j as int),
            forall|k: int| 0 <= k < hits.len() ==> hits@[k] < j,
        decreases names.len() - j,
    {
        let ghost h0 = hits@;
        let ghost n0 = hit_names@;
        let ghost r0 = readable@;
        match &names[j] {
            Some(n) => {
                let f = folded(n);
                if contains_chars(&f, &needle) {
                    hits.push(j);
                    hit_names.push(n.clone());
                    assert(hits@.map_values(|i: usize| i as int) =~= h0.map_values(
                        |i: usize| i as int,
                    ).push(j as int));
                    assert(texts(hit_names@) =~= texts(n0).push(n@));
                }
                readable.push(n.clone());
                assert(texts(readable@) =~= texts(r0).push(n@));
            },
            None => {},
        }
        proof {
            let m0 = folded_matches(nv, name_or_id@, j as int);
            let m1 = folded_matches(nv, name_or_id@, j + 1);
            assert(nv[j as int] == match names@[j as int] {
                Some(s) => Some(s@),
                None => None::<Seq<char>>,
            });
            if m1.len() > m0.len() {
                assert(m1 == m0.push(j as int));
                assert(names_at(nv, m1) =~= names_at(nv, m0).push(nv[j as int]->0));
            } else {
                assert(names_at(nv, m1) =~= names_at(nv, m0));
            }
        }
        j = j + 1;
    }
    let ghost m = folded_matches(nv, name_or_id@, names.len() as int);
    assert(hits@.map_values(|i: usize| i as int) == m);
    assert(hits.len() == m.len());
    if hits.len() == 1 {
        assert(hits@[0] as int == m[0]);
        return Ok(hits[0]);
    }
    if hits.len() > 1 {
        return Err(AudioInputError::Ambiguous { requested: name_or_id.to_owned(), matches: hit_names });
    }
    Err(AudioInputError::NotFound { requested: name_or_id.to_owned(), available: readable })
}

} // verus!
