//! MIDI logic: the bytes of note messages, resolving a port by number or
//! name, the text of port listings, the short-lived cache of the port
//! list, and the schedule for retrying MIDI initialisation.

use vstd::prelude::*;
use crate::text::{
    chars_of, contains, dec_digits, find_in, parse_int, parse_int_range, push_all, push_decimal,
    string_from_chars, IntErrorKind,
};
use crate::types::MidiPortInfo;

verus! {

// ---------------------------------------------------------------------------
// Messages
// ---------------------------------------------------------------------------

/// Note on for `note` at `velocity` on `channel` (only its low four bits
/// count).
pub fn note_on_message(note: u8, velocity: u8, channel: u8) -> (r: [u8; 3])
    ensures
        r@ == seq![0x90u8 | (channel & 0x0F), note, velocity],
        r@[0] >> 4u8 == 9,
        r@[0] & 0x0Fu8 == channel % 16,
{
    let status = 0x90u8 | (channel & 0x0F);
    assert(status >> 4u8 == 9 && status & 0x0Fu8 == channel % 16) by (bit_vector)
        requires
            status == 0x90u8 | (channel & 0x0F),
    ;
    let r = [status, note, velocity];
    assert(r@ =~= seq![status, note, velocity]);
    r
}

/// Note off for `note` on `channel` (only its low four bits count), with
/// release velocity 0.
pub fn note_off_message(note: u8, channel: u8) -> (r: [u8; 3])
    ensures
        r@ == seq![0x80u8 | (channel & 0x0F), note, 0u8],
        r@[0] >> 4u8 == 8,
        r@[0] & 0x0Fu8 == channel % 16,
{
    let status = 0x80u8 | (channel & 0x0F);
    assert(status >> 4u8 == 8 && status & 0x0Fu8 == channel % 16) by (bit_vector)
        requires
            status == 0x80u8 | (channel & 0x0F),
    ;
    let r = [status, note, 0u8];
    assert(r@ =~= seq![status, note, 0u8]);
    r
}

/// A note off for every note 0..=127 on channel 0, in order.
pub fn all_notes_off_messages() -> (r: Vec<[u8; 3]>)
    ensures
        r.len() == 128,
        forall|i: int| 0 <= i < 128 ==> (#[trigger] r@[i])@ == seq![0x80u8, i as u8, 0u8],
{
    let mut out: Vec<[u8; 3]> = Vec::new();
    let mut note: u8 = 0;
    while note < 128
        invariant
            note <= 128,
            out.len() == note,
            forall|i: int| 0 <= i < note ==> (#[trigger] out@[i])@ == seq![0x80u8, i as u8, 0u8],
        decreases 128 - note,
    {
        let m = note_off_message(note, 0);
        assert(0x80u8 | (0u8 & 0x0Fu8) == 0x80u8) by (bit_vector);
        out.push(m);
        note = note + 1;
    }
    out
}

/// "All Notes Off" (controller 123) on each of the 16 channels, in order.
pub fn all_notes_off_controller_messages() -> (r: Vec<[u8; 3]>)
    ensures
        r.len() == 16,
        forall|i: int| 0 <= i < 16 ==> (#[trigger] r@[i])@ == seq![0xB0u8 | (i as u8), 123u8, 0u8],
{
    let mut out: Vec<[u8; 3]> = Vec::new();
    let mut channel: u8 = 0;
    while channel < 16
        invariant
            channel <= 16,
            out.len() == channel,
            forall|i: int| 0 <= i < channel ==> (#[trigger] out@[i])@ == seq![
                0xB0u8 | (i as u8),
                123u8,
                0u8,
            ],
        decreases 16 - channel,
    {
        let m = [0xB0u8 | channel, 123u8, 0u8];
        assert(m@ =~= seq![0xB0u8 | channel, 123u8, 0u8]);
        out.push(m);
        channel = channel + 1;
    }
    out
}

// ---------------------------------------------------------------------------
// Port lookup and listings
// ---------------------------------------------------------------------------

/// The first port whose name could be read and contains `q`.
pub open spec fn first_name_match(names: Seq<Option<Seq<char>>>, q: Seq<char>, from: int) -> Option<int>
    decreases names.len() - from,
{
    if from < 0 || from >= names.len() {
        None
    } else if names[from] matches Some(n) && contains(n, q) {
        Some(from)
    } else {
        first_name_match(names, q, from + 1)
    }
}

/// Which port `name_or_id` selects among ports with the given names
/// (`None` where a name could not be read): a number below the count picks
/// that port; otherwise the first readable name containing the text.
pub open spec fn port_selected(names: Seq<Option<Seq<char>>>, q: Seq<char>) -> Option<int> {
    match parse_int(q, 0, usize::MAX as int) {
        Ok(i) if i < names.len() => Some(i),
        _ => first_name_match(names, q, 0),
    }
}

pub open spec fn port_names_view(names: Seq<Option<String>>) -> Seq<Option<Seq<char>>> {
    names.map_values(|n: Option<String>| match n {
        Some(s) => Some(s@),
        None => None,
    })
}

/// `[<index>] <name>`, with `Unknown` for a name that could not be read.
pub open spec fn port_listing_text(index: int, name: Option<Seq<char>>) -> Seq<char> {
    seq!['['] + dec_digits(index as nat) + seq![']', ' '] + match name {
        Some(n) => n,
        None => seq!['U', 'n', 'k', 'n', 'o', 'w', 'n'],
    }
}

/// The listing line of a port, such as `[0] IAC Driver Bus 1`.
pub fn port_listing(index: usize, name: &Option<String>) -> (r: String)
    ensures
        r@ == port_listing_text(
            index as int,
            match name {
                Some(s) => Some(s@),
                None => None,
            },
        ),
{
    let mut out: Vec<char> = Vec::new();
    out.push('[');
    push_decimal(&mut out, index as u64, 0);
    out.push(']');
    out.push(' ');
    match name {
        Some(s) => {
            let n = chars_of(s.as_str());
            push_all(&mut out, &n);
        },
        None => {
            push_all(&mut out, &vec!['U', 'n', 'k', 'n', 'o', 'w', 'n']);
        },
    }
    assert(out@ =~= port_listing_text(
        index as int,
        match name {
            Some(s) => Some(s@),
            None => None,
        },
    ));
    string_from_chars(&out)
}

/// The listing lines of all ports, in order.
pub fn port_listings(names: &Vec<Option<String>>) -> (r: Vec<String>)
    ensures
        r.len() == names.len(),
        forall|i: int| 0 <= i < names.len() ==> (#[trigger] r@[i])@ == port_listing_text(
            i,
            port_names_view(names@)[i],
        ),
{
    let mut out: Vec<String> = Vec::new();
    let mut i: usize = 0;
    while i < names.len()
        invariant
            i <= names.len(),
            out.len() == i,
            forall|k: int| 0 <= k < i ==> (#[trigger] out@[k])@ == port_listing_text(
                k,
                port_names_view(names@)[k],
            ),
        decreases names.len() - i,
    {
        out.push(port_listing(i, &names[i]));
        i = i + 1;
    }
    out
}

/// A port name as shown: the name, or `Unknown` where it could not be read.
pub open spec fn shown_name(name: Option<Seq<char>>) -> Seq<char> {
    match name {
        Some(n) => n,
        None => seq!['U', 'n', 'k', 'n', 'o', 'w', 'n'],
    }
}

/// The port information of an enumeration: port `i` has index `i` and its
/// name, or `Unknown` where the name could not be read.
pub fn port_infos(names: &Vec<Option<String>>) -> (r: Vec<MidiPortInfo>)
    ensures
        r.len() == names.len(),
        forall|i: int|
            0 <= i < names.len() ==> (#[trigger] r@[i])@ == (i as usize, shown_name(
                port_names_view(names@)[i],
            )),
{
    let mut out: Vec<MidiPortInfo> = Vec::new();
    let mut i: usize = 0;
    while i < names.len()
        invariant
            i <= names.len(),
            out.len() == i,
            forall|k: int|
                0 <= k < i ==> (#[trigger] out@[k])@ == (k as usize, shown_name(
                    port_names_view(names@)[k],
                )),
        decreases names.len() - i,
    {
        let name = match &names[i] {
            Some(n) => n.clone(),
            None => {
                proof {
                    reveal_strlit("Unknown");
                }
                "Unknown".to_owned()
            },
        };
        out.push(MidiPortInfo { index: i, name });
        i = i + 1;
    }
    out
}

/// The lines of a list joined with `, `.
pub open spec fn joined(items: Seq<Seq<char>>) -> Seq<char>
    decreases items.len(),
{
    if items.len() == 0 {
        seq![]
    } else if items.len() == 1 {
        items[0]
    } else {
        joined(items.drop_last()) + seq![',', ' '] + items.last()
    }
}

/// Joins lines with `, `.
pub fn join_comma(items: &Vec<String>) -> (r: String)
    ensures
        r@ == joined(items@.map_values(|s: String| s@)),
{
    let ghost texts = items@.map_values(|s: String| s@);
    let mut out: Vec<char> = Vec::new();
    let mut i: usize = 0;
    assert(texts.take(0) =~= Seq::<Seq<char>>::empty());
    while i < items.len()
        invariant
            i <= items.len(),
            texts == items@.map_values(|s: String| s@),
            out@ == joined(texts.take(i as int)),
        decreases items.len() - i,
    {
        if i > 0 {
            out.push(',');
            out.push(' ');
        }
        let t = chars_of(items[i].as_str());
        push_all(&mut out, &t);
        assert(texts.take(i + 1).drop_last() =~= texts.take(i as int));
        assert(out@ =~= joined(texts.take(i + 1)));
        i = i + 1;
    }
    assert(texts.take(items.len() as int) =~= texts);
    string_from_chars(&out)
}

/// Whether `needle` occurs in `hay`, as `str::contains` decides.
pub fn contains_chars(hay: &Vec<char>, needle: &Vec<char>) -> (r: bool)
    ensures
        r == contains(hay@, needle@),
{
    assert(hay@.subrange(0, hay.len() as int) =~= hay@);
    if needle.len() == 0 {
        assert(hay@.subrange(0, 0) =~= needle@);
        return true;
    }
    find_in(hay, 0, hay.len(), needle).is_some()
}

/// No port matched `requested`; `available` lists the ports.
#[derive(Debug)]
pub struct PortNotFound {
    pub requested: String,
    pub available: Vec<String>,
}

impl PortNotFound {
    /// The text of this error: the requested port and the listed ones
    /// (`(none)` when there are none).
    pub fn message(&self) -> (r: String)
        ensures
            r@ == "MIDI port not found: '"@ + self.requested@ + "'. Available ports: "@
                + crate::audio::listed(crate::engine::texts(self.available@)),
    {
        let a = crate::text::concat_str("MIDI port not found: '", self.requested.as_str());
        let b = crate::text::concat_str(a.as_str(), "'. Available ports: ");
        if self.available.len() == 0 {
            crate::text::concat_str(b.as_str(), "(none)")
        } else {
            let j = join_comma(&self.available);
            assert(self.available@.map_values(|s: String| s@) =~= crate::engine::texts(
                self.available@,
            ));
            crate::text::concat_str(b.as_str(), j.as_str())
        }
    }
}

/// Resolves `name_or_id` among ports with the given names (`None` where a
/// name could not be read): a number below the count picks that port,
/// otherwise the first readable name that contains the text.
pub fn find_port_index(names: &Vec<Option<String>>, name_or_id: &str) -> (r: Result<
    usize,
    PortNotFound,
>)
    ensures
        match r {
            Ok(i) => port_selected(port_names_view(names@), name_or_id@) == Some(i as int),
            Err(e) => port_selected(port_names_view(names@), name_or_id@) is None
                && e.requested@ == name_or_id@ && e.available.len() == names.len() && forall|
                i: int,
            |
                0 <= i < names.len() ==> (#[trigger] e.available@[i])@ == port_listing_text(
                    i,
                    port_names_view(names@)[i],
                ),
        },
{
    let q = chars_of(name_or_id);
    let ghost nv = port_names_view(names@);
    assert(q@.subrange(0, q.len() as int) =~= q@);
    let parsed = parse_int_range(&q, 0, q.len(), 0, usize::MAX as i128);
    match parsed {
        Ok(i) => {
            if (i as usize) < names.len() {
                return Ok(i as usize);
            }
        },
        Err(_) => {},
    }
    let mut j: usize = 0;
    assert(port_selected(nv, q@) == first_name_match(nv, q@, 0));
    while j < names.len()
        invariant
            j <= names.len(),
            nv == port_names_view(names@),
            q@ == name_or_id@,
            port_selected(nv, q@) == first_name_match(nv, q@, 0),
            first_name_match(nv, q@, 0) == first_name_match(nv, q@, j as int),
        decreases names.len() - j,
    {
        match &names[j] {
            Some(n) => {
                let nc = chars_of(n.as_str());
                assert(nv[j as int] == Some(n@));
                if contains_chars(&nc, &q) {
                    return Ok(j);
                }
            },
            None => {},
        }
        j = j + 1;
    }
    Err(PortNotFound { requested: name_or_id.to_owned(), available: port_listings(names) })
}


/// The first port from `from` on whose name could be read and contains
/// `q` ignoring case.
pub open spec fn first_folded_match(names: Seq<Option<Seq<char>>>, q: Seq<char>, from: int) -> Option<
    int,
>
    decreases names.len() - from,
{
    if from < 0 || from >= names.len() {
        None
    } else if names[from] matches Some(n) && contains(
        crate::text::str_to_lowercase(n),
        crate::text::str_to_lowercase(q),
    ) {
        Some(from)
    } else {
        first_folded_match(names, q, from + 1)
    }
}

/// Which device (MIDI output or audio input) `identifier` names for the
/// standalone recorder: a number below the count picks that device;
/// otherwise the first readable name containing the text, ignoring case.
pub open spec fn device_selected(names: Seq<Option<Seq<char>>>, q: Seq<char>) -> Option<int> {
    match parse_int(q, 0, usize::MAX as int) {
        Ok(i) if i < names.len() => Some(i),
        _ => first_folded_match(names, q, 0),
    }
}

/// Finds the device `identifier` names (see `device_selected`); `None`
/// when nothing matches.
pub fn find_device_index(names: &Vec<Option<String>>, identifier: &str) -> (r: Option<usize>)
    ensures
        match r {
            Some(i) => device_selected(port_names_view(names@), identifier@) == Some(i as int),
            None => device_selected(port_names_view(names@), identifier@) is None,
        },
{
    let q = chars_of(identifier);
    let ghost nv = port_names_view(names@);
    assert(q@.subrange(0, q.len() as int) =~= q@);
    match parse_int_range(&q, 0, q.len(), 0, usize::MAX as i128) {
        Ok(i) => {
            if (i as usize) < names.len() {
                return Some(i as usize);
            }
        },
        Err(_) => {},
    }
    let needle = crate::text::to_lowercase(&q);
    let mut j: usize = 0;
    while j < names.len()
        invariant
            j <= names.len(),
            nv == port_names_view(names@),
            needle@ == crate::text::str_to_lowercase(identifier@),
            device_selected(nv, identifier@) == first_folded_match(nv, identifier@, j as int),
        decreases names.len() - j,
    {
        match &names[j] {
            Some(n) => {
                let c = chars_of(n.as_str());
                let f = crate::text::to_lowercase(&c);
                if contains_chars(&f, &needle) {
                    return Some(j);
                }
            },
            None => {},
        }
        j = j + 1;
    }
    None
}

/// The report on the MIDI backend for `target` on platform `os`, given
/// what enumerating the outputs gave.
pub open spec fn diagnostics_text(
    target: Seq<char>,
    os: Seq<char>,
    ports: Result<Seq<(usize, Seq<char>)>, Seq<char>>,
) -> Seq<Seq<char>> {
    let head = seq![
        "MIDI diagnostics target: '"@ + target + "'"@,
        "MIDI diagnostics platform: "@ + os,
    ];
    match ports {
        Ok(p) => head.push("MIDI diagnostics ports detected: "@ + dec_digits(p.len())) + if p.len()
            == 0 {
            seq!["MIDI diagnostics warning: backend reports zero MIDI output ports"@]
        } else {
            diagnostics_port_lines(p)
        },
        Err(e) => head.push("MIDI diagnostics error: backend init failed: "@ + e),
    }
}

/// `MIDI diagnostics port [<index>]: <name>`.
pub open spec fn diagnostics_port_text(e: (usize, Seq<char>)) -> Seq<char> {
    "MIDI diagnostics port ["@ + dec_digits(e.0 as nat) + "]: "@ + e.1
}

/// One line per output.
pub open spec fn diagnostics_port_lines(p: Seq<(usize, Seq<char>)>) -> Seq<Seq<char>> {
    p.map_values(|e: (usize, Seq<char>)| diagnostics_port_text(e))
}

fn diagnostics_port_line(p: &MidiPortInfo) -> (r: String)
    ensures
        r@ == diagnostics_port_text(p@),
{
    let mut out = chars_of("MIDI diagnostics port [");
    push_decimal(&mut out, p.index as u64, 0);
    let t = chars_of("]: ");
    push_all(&mut out, &t);
    let n = chars_of(p.name.as_str());
    push_all(&mut out, &n);
    string_from_chars(&out)
}

/// The report on the MIDI backend for `target` on platform `os`: the
/// target, the platform, then the outputs found (or a warning that there
/// are none), or the error that enumerating them gave.
pub fn collect_midi_diagnostics(
    target: &str,
    os: &str,
    ports: Result<Vec<MidiPortInfo>, String>,
) -> (r: Vec<String>)
    ensures
        crate::engine::texts(r@) == diagnostics_text(
            target@,
            os@,
            match ports {
                Ok(v) => Ok(ports_view(v@)),
                Err(e) => Err(e@),
            },
        ),
{
    let mut lines: Vec<String> = Vec::new();
    let a = crate::text::concat_str("MIDI diagnostics target: '", target);
    lines.push(crate::text::concat_str(a.as_str(), "'"));
    lines.push(crate::text::concat_str("MIDI diagnostics platform: ", os));
    let ghost head = crate::engine::texts(lines@);
    match ports {
        Ok(p) => {
            let mut out = chars_of("MIDI diagnostics ports detected: ");
            push_decimal(&mut out, p.len() as u64, 0);
            lines.push(string_from_chars(&out));
            let ghost base = crate::engine::texts(lines@);
            if p.len() == 0 {
                lines.push("MIDI diagnostics warning: backend reports zero MIDI output ports".to_owned());
                assert(crate::engine::texts(lines@) =~= base + seq![
                    "MIDI diagnostics warning: backend reports zero MIDI output ports"@,
                ]);
            } else {
                let ghost pv = ports_view(p@);
                let mut i: usize = 0;
                while i < p.len()
                    invariant
                        i <= p.len(),
                        pv == ports_view(p@),
                        crate::engine::texts(lines@) == base + diagnostics_port_lines(pv.take(i as int)),
                    decreases p.len() - i,
                {
                    let ghost before = lines@;
                    let l = diagnostics_port_line(&p[i]);
                    assert(pv[i as int] == p@[i as int]@);
                    assert(l@ == diagnostics_port_text(pv[i as int]));
                    lines.push(l);
                    assert(lines@ == before.push(l));
                    assert(diagnostics_port_lines(pv.take(i + 1)) =~= diagnostics_port_lines(
                        pv.take(i as int),
                    ).push(diagnostics_port_text(pv[i as int])));
                    assert(crate::engine::texts(lines@) =~= crate::engine::texts(before).push(
                        diagnostics_port_text(pv[i as int]),
                    ));
                    i = i + 1;
                }
                assert(pv.take(p.len() as int) =~= pv);
            }
        },
        Err(e) => {
            lines.push(crate::text::concat_str("MIDI diagnostics error: backend init failed: ", e.as_str()));
        },
    }
    lines
}

/// Whether `c` is an ASCII digit.
pub open spec fn is_digit_char(c: char) -> bool {
    '0' <= c && c <= '9'
}

/// The position where the run of ASCII digits that starts at `i` in `s`
/// ends (`i` itself when `s[i]` is no digit).
pub open spec fn digit_run_end(s: Seq<char>, i: int) -> int
    decreases s.len() - i,
{
    if 0 <= i < s.len() && is_digit_char(s[i]) {
        digit_run_end(s, i + 1)
    } else {
        i
    }
}

/// `s` without a leading `[<digits>] ` prefix, such as the `[0] ` of
/// `[0] IAC Driver Bus 1`; `s` itself when it has no such prefix.
pub open spec fn strip_listing_prefix(s: Seq<char>) -> Seq<char> {
    let e = digit_run_end(s, 1);
    if s.len() > 0 && s[0] == '[' && e > 1 && e + 1 < s.len() && s[e] == ']' && s[e + 1] == ' ' {
        s.subrange(e + 2, s.len() as int)
    } else {
        s
    }
}

/// Port information recovered from a listing line: the given index, and
/// the line without its leading `[<digits>] ` prefix.
pub fn port_info_from_listing(index: usize, listing: &str) -> (r: MidiPortInfo)
    ensures
        r.index == index,
        r.name@ == strip_listing_prefix(listing@),
{
    let chars = chars_of(listing);
    let n = chars.len();
    assert(chars@.subrange(0, n as int) =~= chars@);
    if n > 0 && chars[0] == '[' {
        let mut i: usize = 1;
        while i < n && '0' <= chars[i] && chars[i] <= '9'
            invariant
                1 <= i <= n,
                n == chars.len(),
                digit_run_end(chars@, 1) == digit_run_end(chars@, i as int),
            decreases n - i,
        {
            i = i + 1;
        }
        assert(digit_run_end(chars@, i as int) == i);
        if i > 1 && i < n - 1 && chars[i] == ']' && chars[i + 1] == ' ' {
            return MidiPortInfo { index, name: crate::text::string_of_range(&chars, i + 2, n) };
        }
    }
    MidiPortInfo { index, name: crate::text::string_of_range(&chars, 0, n) }
}

proof fn lemma_dec_digits_are_digits(n: nat)
    ensures
        dec_digits(n).len() >= 1,
        forall|k: int| 0 <= k < dec_digits(n).len() ==> is_digit_char(#[trigger] dec_digits(n)[k]),
    decreases n,
{
    if n >= 10 {
        lemma_dec_digits_are_digits(n / 10);
        let d = dec_digits(n / 10);
        assert forall|k: int| 0 <= k < dec_digits(n).len() implies is_digit_char(
            #[trigger] dec_digits(n)[k],
        ) by {
            if k < d.len() {
                assert(dec_digits(n)[k] == d[k]);
            }
        }
    }
}

proof fn lemma_digit_run_to(s: Seq<char>, k: int, e: int)
    requires
        1 <= k <= e < s.len(),
        !is_digit_char(s[e]),
        forall|j: int| k <= j < e ==> is_digit_char(#[trigger] s[j]),
    ensures
        digit_run_end(s, k) == e,
    decreases e - k,
{
    if k < e {
        lemma_digit_run_to(s, k + 1, e);
    }
}

/// Reading a port back from its listing line gives its index's port name,
/// whatever the name holds.
pub proof fn lemma_listing_round_trip(index: nat, name: Seq<char>)
    ensures
        strip_listing_prefix(port_listing_text(index as int, Some(name))) == name,
{
    let d = dec_digits(index);
    let s = port_listing_text(index as int, Some(name));
    lemma_dec_digits_are_digits(index);
    assert(s =~= seq!['['] + d + seq![']', ' '] + name);
    let e = d.len() as int + 1;
    assert(s[e] == ']');
    assert(s[e + 1] == ' ');
    assert forall|j: int| 1 <= j < e implies is_digit_char(#[trigger] s[j]) by {
        assert(s[j] == d[j - 1]);
    }
    lemma_digit_run_to(s, 1, e);
    assert(s.subrange(e + 2, s.len() as int) =~= name);
}

/// What a connect keeps from its listing lines is what an enumeration of
/// the same ports gives: port `i` with its name, or `Unknown`.
pub proof fn lemma_listing_matches_enumeration(names: Seq<Option<Seq<char>>>)
    ensures
        forall|i: int|
            0 <= i < names.len() ==> strip_listing_prefix(
                #[trigger] port_listing_text(i, names[i]),
            ) == shown_name(names[i]),
{
    assert forall|i: int| 0 <= i < names.len() implies strip_listing_prefix(
        #[trigger] port_listing_text(i, names[i]),
    ) == shown_name(names[i]) by {
        assert(port_listing_text(i, names[i]) == port_listing_text(i, Some(shown_name(names[i]))));
        lemma_listing_round_trip(i as nat, shown_name(names[i]));
    }
}

// ---------------------------------------------------------------------------
// Port-list cache
// ---------------------------------------------------------------------------

/// How long an enumerated port list is reused, in milliseconds.
pub open spec fn port_cache_ttl_ms() -> nat {
    3000
}

/// The ports as values.
pub open spec fn ports_view(v: Seq<MidiPortInfo>) -> Seq<(usize, Seq<char>)> {
    v.map_values(|p: MidiPortInfo| p@)
}

/// Whether a list captured at `captured_ms` is still fresh at `now_ms`
/// (elapsed time saturates at zero).
pub open spec fn is_fresh(captured_ms: nat, now_ms: nat) -> bool {
    (if now_ms >= captured_ms {
        now_ms - captured_ms
    } else {
        0
    }) < port_cache_ttl_ms()
}

/// A port list kept for a short while after it was enumerated, so that a
/// scan followed at once by a session start enumerates only once.
pub struct PortCache {
    entry: Option<(Vec<MidiPortInfo>, u64)>,
}

impl View for PortCache {
    type V = Option<(Seq<(usize, Seq<char>)>, nat)>;

    closed spec fn view(&self) -> Option<(Seq<(usize, Seq<char>)>, nat)> {
        match self.entry {
            None => None,
            Some((ports, at)) => Some((ports_view(ports@), at as nat)),
        }
    }
}

fn copy_ports(v: &Vec<MidiPortInfo>) -> (r: Vec<MidiPortInfo>)
    ensures
        ports_view(r@) == ports_view(v@),
{
    let mut out: Vec<MidiPortInfo> = Vec::new();
    let mut i: usize = 0;
    while i < v.len()
        invariant
            i <= v.len(),
            ports_view(out@) == ports_view(v@.take(i as int)),
        decreases v.len() - i,
    {
        let ghost before = out@;
        out.push(v[i].duplicate());
        assert(ports_view(out@) =~= ports_view(before).push(v@[i as int]@));
        assert(v@.take(i + 1) =~= v@.take(i as int).push(v@[i as int]));
        assert(ports_view(v@.take(i + 1)) =~= ports_view(v@.take(i as int)).push(v@[i as int]@));
        i = i + 1;
    }
    assert(v@.take(v.len() as int) =~= v@);
    out
}

impl PortCache {
    /// An empty cache.
    pub fn new() -> (r: PortCache)
        ensures
            r@ is None,
    {
        PortCache { entry: None }
    }

    /// The cached list, if one was stored less than the time to live before
    /// `now_ms`.
    pub fn cached(&self, now_ms: u64) -> (r: Option<Vec<MidiPortInfo>>)
        ensures
            match self@ {
                Some((ports, at)) => if is_fresh(at, now_ms as nat) {
                    r matches Some(v) && ports_view(v@) == ports
                } else {
                    r is None
                },
                None => r is None,
            },
    {
        match &self.entry {
            None => None,
            Some((ports, at)) => {
                let elapsed = if now_ms >= *at {
                    now_ms - *at
                } else {
                    0
                };
                if elapsed < 3000 {
                    Some(copy_ports(ports))
                } else {
                    None
                }
            },
        }
    }

    /// Keeps `ports`, enumerated at `now_ms`.
    pub fn store(&mut self, ports: Vec<MidiPortInfo>, now_ms: u64)
        ensures
            final(self)@ == Some((ports_view(ports@), now_ms as nat)),
    {
        self.entry = Some((ports, now_ms));
    }

    /// Forgets the kept list.
    pub fn invalidate(&mut self)
        ensures
            final(self)@ is None,
    {
        self.entry = None;
    }
}

/// Forgets the kept port list, so that the next lookup enumerates again.
pub fn invalidate_port_cache(cache: &mut PortCache)
    ensures
        final(cache)@ is None,
{
    cache.invalidate();
}

/// The current port list: the kept one while it is fresh, otherwise the
/// result of `enumerate`, which is kept when it succeeds.
pub fn get_midi_ports<E, F: FnOnce() -> Result<Vec<MidiPortInfo>, E>>(
    cache: &mut PortCache,
    now_ms: u64,
    enumerate: F,
) -> (r: Result<Vec<MidiPortInfo>, E>)
    requires
        enumerate.requires(()),
    ensures
        match old(cache)@ {
            Some((ports, at)) if is_fresh(at, now_ms as nat) => r matches Ok(v) && ports_view(v@)
                == ports && final(cache)@ == old(cache)@,
            _ => call_ensures(enumerate, (), r) && match r {
                Ok(v) => final(cache)@ == Some((ports_view(v@), now_ms as nat)),
                Err(_) => final(cache)@ == old(cache)@,
            },
        },
{
    if let Some(kept) = cache.cached(now_ms) {
        return Ok(kept);
    }
    let result = enumerate();
    match result {
        Ok(ports) => {
            cache.store(copy_ports(&ports), now_ms);
            Ok(ports)
        },
        Err(e) => Err(e),
    }
}

// ---------------------------------------------------------------------------
// Initialisation retries
// ---------------------------------------------------------------------------

/// How many times MIDI initialisation is tried.
pub open spec fn init_attempts() -> nat {
    10
}

/// The pause after a failed attempt, in milliseconds.
pub open spec fn init_backoff_ms(attempt: int) -> nat {
    if attempt == 0 {
        50
    } else if attempt == 1 {
        100
    } else if attempt == 2 {
        200
    } else if attempt == 3 {
        350
    } else if attempt == 4 {
        500
    } else if attempt == 5 {
        700
    } else if attempt == 6 {
        900
    } else if attempt == 7 {
        1200
    } else if attempt == 8 {
        1500
    } else {
        1800
    }
}

/// The pauses after the first `n` attempts, added up.
pub open spec fn backoff_before(n: int) -> nat
    decreases n,
{
    if n <= 0 {
        0
    } else {
        backoff_before(n - 1) + init_backoff_ms(n - 1)
    }
}

/// The number of initialisation attempts.
pub fn midi_init_attempts() -> (r: usize)
    ensures
        r == init_attempts(),
{
    10
}

/// The pause after failed attempt `attempt` (from 0), or `None` after the
/// last attempt, when no pause is taken.
pub fn init_retry_delay_ms(attempt: usize) -> (r: Option<u64>)
    requires
        attempt < init_attempts(),
    ensures
        attempt + 1 < init_attempts() ==> r == Some(init_backoff_ms(attempt as int) as u64),
        attempt + 1 >= init_attempts() ==> r is None,
{
    if attempt + 1 >= 10 {
        return None;
    }
    let ms: u64 = if attempt == 0 {
        50
    } else if attempt == 1 {
        100
    } else if attempt == 2 {
        200
    } else if attempt == 3 {
        350
    } else if attempt == 4 {
        500
    } else if attempt == 5 {
        700
    } else if attempt == 6 {
        900
    } else if attempt == 7 {
        1200
    } else {
        1500
    };
    Some(ms)
}

/// The pauses taken before attempt `attempt` (from 0), added up, as the
/// log of a late success reports them.
pub fn init_backoff_total_ms(attempt: usize) -> (r: u64)
    requires
        attempt <= init_attempts(),
    ensures
        r == backoff_before(attempt as int),
{
    let mut total: u64 = 0;
    let mut k: usize = 0;
    while k < attempt
        invariant
            k <= attempt <= 10,
            total == backoff_before(k as int),
            total <= 1800 * k,
        decreases attempt - k,
    {
        let ms: u64 = if k == 0 {
            50
        } else if k == 1 {
            100
        } else if k == 2 {
            200
        } else if k == 3 {
            350
        } else if k == 4 {
            500
        } else if k == 5 {
            700
        } else if k == 6 {
            900
        } else if k == 7 {
            1200
        } else if k == 8 {
            1500
        } else {
            1800
        };
        total = total + ms;
        k = k + 1;
    }
    total
}

/// What to do after a failed initialisation attempt.
#[derive(Debug, Clone, Copy, PartialEq, Eq, Structural)]
pub enum InitDecision {
    /// Pause for `pause_ms` milliseconds, then try again.
    Retry { pause_ms: u64 },
    /// Stop: all `attempts` attempts failed.
    GiveUp { attempts: usize },
}

/// The retry loop of MIDI initialisation: which attempt (from 0) is being
/// made and how long the loop has paused so far.
pub struct InitRetry {
    attempt: usize,
    paused_ms: u64,
}

/// A retry loop as values: the attempt being made (`init_attempts()` once
/// it gave up) and the pauses taken so far.
pub struct InitRetryView {
    pub attempt: nat,
    pub paused_ms: nat,
}

impl View for InitRetry {
    type V = InitRetryView;

    closed spec fn view(&self) -> InitRetryView {
        InitRetryView { attempt: self.attempt as nat, paused_ms: self.paused_ms as nat }
    }
}

impl InitRetryView {
    /// At most every attempt has been made, and the pauses are those after
    /// each failed attempt but the last.
    pub open spec fn wf(self) -> bool {
        &&& self.attempt <= init_attempts()
        &&& self.paused_ms == backoff_before(
            if self.attempt < init_attempts() {
                self.attempt as int
            } else {
                init_attempts() - 1
            },
        )
    }
}

/// What a failed attempt does to the retry loop, and the decision.
pub open spec fn init_failure_spec(v: InitRetryView) -> (InitRetryView, InitDecision) {
    if v.attempt + 1 < init_attempts() {
        (
            InitRetryView {
                attempt: v.attempt + 1,
                paused_ms: v.paused_ms + init_backoff_ms(v.attempt as int),
            },
            InitDecision::Retry { pause_ms: init_backoff_ms(v.attempt as int) as u64 },
        )
    } else {
        (
            InitRetryView { attempt: init_attempts(), paused_ms: v.paused_ms },
            InitDecision::GiveUp { attempts: init_attempts() as usize },
        )
    }
}

proof fn lemma_backoff_before_bounded(n: int)
    requires
        0 <= n <= init_attempts(),
    ensures
        backoff_before(n) <= 1800 * n,
    decreases n,
{
    if n > 0 {
        lemma_backoff_before_bounded(n - 1);
    }
}

impl InitRetry {
    /// A loop about to make its first attempt.
    pub fn new() -> (r: InitRetry)
        ensures
            r@.wf(),
            r@.attempt == 0,
            r@.paused_ms == 0,
    {
        InitRetry { attempt: 0, paused_ms: 0 }
    }

    /// The attempt being made, from 0.
    pub fn attempt(&self) -> (r: usize)
        ensures
            r == self@.attempt,
    {
        self.attempt
    }

    /// The pauses taken so far, in milliseconds, as the log of a late
    /// success reports them.
    pub fn paused_ms(&self) -> (r: u64)
        ensures
            r == self@.paused_ms,
    {
        self.paused_ms
    }

    /// The current attempt failed: pause and retry, or give up after the
    /// last attempt (no pause follows it).
    pub fn failed(&mut self) -> (d: InitDecision)
        requires
            old(self)@.wf(),
            old(self)@.attempt < init_attempts(),
        ensures
            final(self)@.wf(),
            (final(self)@, d) == init_failure_spec(old(self)@),
    {
        proof {
            lemma_backoff_before_bounded(self.attempt as int);
        }
        match init_retry_delay_ms(self.attempt) {
            Some(ms) => {
                self.paused_ms = self.paused_ms + ms;
                self.attempt = self.attempt + 1;
                InitDecision::Retry { pause_ms: ms }
            },
            None => {
                self.attempt = 10;
                InitDecision::GiveUp { attempts: 10 }
            },
        }
    }
}

/// The decisions after `k` failed attempts in a row, from `v`.
pub open spec fn init_failures(v: InitRetryView, k: nat) -> (InitRetryView, Seq<InitDecision>)
    decreases k,
{
    if k == 0 || v.attempt >= init_attempts() {
        (v, seq![])
    } else {
        let (v1, d) = init_failure_spec(v);
        let (w, rest) = init_failures(v1, (k - 1) as nat);
        (w, seq![d] + rest)
    }
}

/// From a fresh loop, `k` failed attempts (at most all of them) give `k`
/// decisions: a pause of the `i`-th backoff after failure `i` while
/// attempts remain, and giving up after the last; the next attempt is
/// then number `k`, after pauses adding up to the first `k` backoffs (all
/// but the last when every attempt failed).
pub proof fn lemma_init_retries(k: nat)
    requires
        k <= init_attempts(),
    ensures
        ({
            let (w, ds) = init_failures(InitRetryView { attempt: 0, paused_ms: 0 }, k);
            &&& ds.len() == k
            &&& forall|i: int|
                0 <= i < k ==> #[trigger] ds[i] == if i + 1 < init_attempts() {
                    InitDecision::Retry { pause_ms: init_backoff_ms(i) as u64 }
                } else {
                    InitDecision::GiveUp { attempts: init_attempts() as usize }
                }
            &&& w.attempt == k
            &&& w.paused_ms == backoff_before(if k < init_attempts() { k as int } else { init_attempts() - 1 })
        }),
{
    lemma_init_retries_from(0, k);
}

proof fn lemma_init_retries_from(a: nat, k: nat)
    requires
        a < init_attempts(),
        a + k <= init_attempts(),
    ensures
        ({
            let v = InitRetryView { attempt: a, paused_ms: backoff_before(a as int) };
            let (w, ds) = init_failures(v, k);
            &&& ds.len() == k
            &&& forall|i: int|
                0 <= i < k ==> #[trigger] ds[i] == if a + i + 1 < init_attempts() {
                    InitDecision::Retry { pause_ms: init_backoff_ms(a + i) as u64 }
                } else {
                    InitDecision::GiveUp { attempts: init_attempts() as usize }
                }
            &&& w.attempt == a + k
            &&& w.paused_ms == backoff_before(
                if a + k < init_attempts() {
                    (a + k) as int
                } else {
                    init_attempts() - 1
                },
            )
        }),
    decreases k,
{
    if k > 0 {
        let v = InitRetryView { attempt: a, paused_ms: backoff_before(a as int) };
        let (v1, d) = init_failure_spec(v);
        if a + 1 < init_attempts() {
            assert(backoff_before(a as int + 1) == backoff_before(a as int) + init_backoff_ms(a as int));
            assert(v1 == InitRetryView { attempt: a + 1, paused_ms: backoff_before(a as int + 1) });
            lemma_init_retries_from(a + 1, (k - 1) as nat);
            let (w, ds) = init_failures(v, k);
            let (w1, rest) = init_failures(v1, (k - 1) as nat);
            assert(ds == seq![d] + rest);
            assert forall|i: int| 1 <= i < k implies #[trigger] ds[i] == rest[i - 1] by {}
        } else {
            assert(k == 1);
            let (w1, rest) = init_failures(v1, 0);
            assert(rest.len() == 0);
        }
    }
}

/// Giving up on MIDI initialisation takes ten attempts and 5500 ms of
/// pauses between them.
pub proof fn lemma_init_gives_up_after_pauses()
    ensures
        backoff_before(init_attempts() as int - 1) == 5500,
{
    reveal_with_fuel(backoff_before, 10);
}

} // verus!
