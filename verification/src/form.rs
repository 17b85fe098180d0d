//! The form decoder: a URL-encoded request body is split into `&`-joined
//! segments, each segment into a key and a value at the first `=`, and
//! key and value are percent-decoded (`+` stands for a space, `%hh` for
//! the character with code `hh`). A malformed percent escape fails the
//! whole decode.

use vstd::prelude::*;

verus! {

use vstd::string::StrSliceExecFns;
use crate::error::ApiError;
use crate::text::push_char;
use crate::text::str_eq;

/// A hexadecimal digit, in either case.
pub open spec fn is_hex_digit(c: char) -> bool {
    ('0' <= c && c <= '9') || ('a' <= c && c <= 'f') || ('A' <= c && c <= 'F')
}

/// The numeric value of a hexadecimal digit.
pub open spec fn hex_digit_val(c: char) -> nat
    recommends
        is_hex_digit(c),
{
    if '0' <= c && c <= '9' {
        (c as int - '0' as int) as nat
    } else if 'a' <= c && c <= 'f' {
        (c as int - 'a' as int + 10) as nat
    } else {
        (c as int - 'A' as int + 10) as nat
    }
}

/// The character a `%hh` escape stands for.
pub open spec fn percent_char(h1: char, h2: char) -> char
    recommends
        is_hex_digit(h1),
        is_hex_digit(h2),
{
    ((16 * hex_digit_val(h1) + hex_digit_val(h2)) as u8) as char
}

/// Percent-decoding of one key or value: `+` becomes a space, `%hh`
/// becomes the character with code `hh`, and every other character
/// stands for itself. `None` when a `%` is not followed by two
/// hexadecimal digits.
pub open spec fn decode_spec(s: Seq<char>) -> Option<Seq<char>>
    decreases s.len(),
{
    if s.len() == 0 {
        Some(Seq::empty())
    } else if s[0] == '%' {
        if s.len() >= 3 && is_hex_digit(s[1]) && is_hex_digit(s[2]) {
            match decode_spec(s.skip(3)) {
                Some(rest) => Some(seq![percent_char(s[1], s[2])] + rest),
                None => None,
            }
        } else {
            None
        }
    } else if s[0] == '+' {
        match decode_spec(s.skip(1)) {
            Some(rest) => Some(seq![' '] + rest),
            None => None,
        }
    } else {
        match decode_spec(s.skip(1)) {
            Some(rest) => Some(seq![s[0]] + rest),
            None => None,
        }
    }
}

/// Index of the first occurrence of `c` in `s`, or `s.len()` when `c`
/// does not occur.
pub open spec fn first_index(s: Seq<char>, c: char) -> int
    decreases s.len(),
{
    if s.len() == 0 {
        0
    } else if s[0] == c {
        0
    } else {
        1 + first_index(s.skip(1), c)
    }
}

/// `first_index` really is the first occurrence: everything before it
/// differs from `c`, and it points at `c` unless `c` does not occur.
pub proof fn lemma_first_index_props(s: Seq<char>, c: char)
    ensures
        0 <= first_index(s, c) <= s.len(),
        forall|k: int| 0 <= k < first_index(s, c) ==> s[k] != c,
        first_index(s, c) < s.len() ==> s[first_index(s, c)] == c,
    decreases s.len(),
{
    if s.len() == 0 {
    } else if s[0] == c {
    } else {
        lemma_first_index_props(s.skip(1), c);
        let fi = first_index(s, c);
        assert forall|k: int| 0 <= k < fi implies s[k] != c by {
            if k > 0 {
                assert(s.skip(1)[k - 1] == s[k]);
            }
        }
        if fi < s.len() {
            assert(s.skip(1)[fi - 1] == s[fi]);
        }
    }
}

/// Any index with the first-occurrence properties is `first_index`.
proof fn lemma_first_index_unique(s: Seq<char>, c: char, j: int)
    requires
        0 <= j <= s.len(),
        forall|k: int| 0 <= k < j ==> s[k] != c,
        j < s.len() ==> s[j] == c,
    ensures
        first_index(s, c) == j,
{
    lemma_first_index_props(s, c);
    let fi = first_index(s, c);
    if fi < j {
        assert(s[fi] == c);
        assert(false);
    }
    if j < fi {
        assert(s[j] != c);
        assert(false);
    }
}

/// The key/value pair a segment stands for: the segment is split at its
/// first `=` (with no `=` the whole segment is the key and the value is
/// empty), and both halves are percent-decoded. `None` when either half
/// fails to decode.
pub open spec fn pair_of_segment(seg: Seq<char>) -> Option<(Seq<char>, Seq<char>)> {
    let j = first_index(seg, '=');
    let rawk = seg.take(j);
    let rawv = if j == seg.len() {
        Seq::<char>::empty()
    } else {
        seg.skip(j + 1)
    };
    match (decode_spec(rawk), decode_spec(rawv)) {
        (Some(k), Some(v)) => Some((k, v)),
        _ => None,
    }
}

/// The ordered key/value pairs of a form-encoded body: the body is split
/// on `&`, empty segments are skipped, and each remaining segment yields
/// one decoded pair. `None` when any segment fails to decode.
pub open spec fn parse_form_spec(s: Seq<char>) -> Option<Seq<(Seq<char>, Seq<char>)>>
    decreases s.len(),
{
    let j = first_index(s, '&');
    if j == s.len() {
        if s.len() == 0 {
            Some(Seq::empty())
        } else {
            match pair_of_segment(s) {
                Some(p) => Some(seq![p]),
                None => None,
            }
        }
    } else {
        proof {
            lemma_first_index_props(s, '&');
        }
        let head = if j == 0 {
            Some(Seq::<(Seq<char>, Seq<char>)>::empty())
        } else {
            match pair_of_segment(s.take(j)) {
                Some(p) => Some(seq![p]),
                None => None,
            }
        };
        match (head, parse_form_spec(s.skip(j + 1))) {
            (Some(h), Some(t)) => Some(h + t),
            _ => None,
        }
    }
}

/// The value of a hexadecimal digit character, or `None` for any other
/// character.
fn hex_digit_value(c: char) -> (r: Option<u8>)
    ensures
        match r {
            Some(v) => is_hex_digit(c) && v == hex_digit_val(c) && v <= 15,
            None => !is_hex_digit(c),
        },
{
    if c >= '0' && c <= '9' {
        Some((c as u8) - ('0' as u8))
    } else if c >= 'a' && c <= 'f' {
        Some((c as u8) - ('a' as u8) + 10)
    } else if c >= 'A' && c <= 'F' {
        Some((c as u8) - ('A' as u8) + 10)
    } else {
        None
    }
}

/// Percent-decode one key or value, as `decode_spec` describes.
pub fn decode_component(s: &str) -> (r: Option<String>)
    ensures
        match r {
            Some(t) => decode_spec(s@) == Some(t@),
            None => decode_spec(s@) is None,
        },
{
    let n = s.unicode_len();
    let mut out = String::new();
    let mut i: usize = 0;
    proof {
        assert(s@.skip(0) =~= s@);
    }
    while i < n
        invariant
            i <= n,
            n == s@.len(),
            decode_spec(s@) is Some <==> decode_spec(s@.skip(i as int)) is Some,
            decode_spec(s@) is Some ==> decode_spec(s@) == Some(
                out@ + decode_spec(s@.skip(i as int))->Some_0,
            ),
        decreases n - i,
    {
        let ghost rem = s@.skip(i as int);
        let c = s.get_char(i);
        proof {
            assert(rem[0] == s@[i as int]);
        }
        if c == '%' {
            if n - i < 3 {
                // Too short for an escape: the decode fails.
                return None;
            }
            let h1 = s.get_char(i + 1);
            let h2 = s.get_char(i + 2);
            proof {
                assert(rem[1] == s@[i + 1]);
                assert(rem[2] == s@[i + 2]);
            }
            let v1 = match hex_digit_value(h1) {
                Some(v) => v,
                None => {
                    return None;
                },
            };
            let v2 = match hex_digit_value(h2) {
                Some(v) => v,
                None => {
                    return None;
                },
            };
            let b: u8 = 16 * v1 + v2;
            let ghost prev = out@;
            push_char(&mut out, b as char);
            proof {
                assert(out@ == prev.push(percent_char(s@[i + 1], s@[i + 2])));
                assert(rem.skip(3) =~= s@.skip(i + 3));
                if decode_spec(rem) is Some {
                    assert(out@ + decode_spec(s@.skip(i + 3))->Some_0 =~= prev + (seq![
                        percent_char(rem[1], rem[2]),
                    ] + decode_spec(rem.skip(3))->Some_0));
                }
            }
            i = i + 3;
        } else if c == '+' {
            let ghost prev = out@;
            push_char(&mut out, ' ');
            proof {
                assert(rem.skip(1) =~= s@.skip(i + 1));
                if decode_spec(rem) is Some {
                    assert(out@ + decode_spec(s@.skip(i + 1))->Some_0 =~= prev + (seq![' ']
                        + decode_spec(rem.skip(1))->Some_0));
                }
            }
            i = i + 1;
        } else {
            let ghost prev = out@;
            push_char(&mut out, c);
            proof {
                assert(rem.skip(1) =~= s@.skip(i + 1));
                if decode_spec(rem) is Some {
                    assert(out@ + decode_spec(s@.skip(i + 1))->Some_0 =~= prev + (seq![rem[0]]
                        + decode_spec(rem.skip(1))->Some_0));
                }
            }
            i = i + 1;
        }
    }
    proof {
        assert(s@.skip(n as int) =~= Seq::<char>::empty());
        assert(decode_spec(s@.skip(n as int)) == Some(Seq::<char>::empty()));
        if decode_spec(s@) is Some {
            assert(out@ + Seq::<char>::empty() =~= out@);
        }
    }
    Some(out)
}

/// The views of a vector of decoded key/value pairs.
pub open spec fn pairs_view(ps: Seq<(String, String)>) -> Seq<(Seq<char>, Seq<char>)> {
    ps.map(|i: int, p: (String, String)| (p.0@, p.1@))
}

/// First position of `target` in `s` within `[start, end)`, or `end`
/// when it does not occur there.
fn find_in_range(s: &str, start: usize, end: usize, target: char) -> (j: usize)
    requires
        start <= end <= s@.len(),
    ensures
        start <= j <= end,
        forall|k: int| start <= k < j ==> s@[k] != target,
        j < end ==> s@[j as int] == target,
{
    let mut j = start;
    while j < end
        invariant
            start <= j <= end,
            end <= s@.len(),
            forall|k: int| start <= k < j ==> s@[k] != target,
        decreases end - j,
    {
        if s.get_char(j) == target {
            return j;
        }
        j = j + 1;
    }
    j
}

/// Split the body on `&`, split each non-empty segment at its first
/// `=`, and percent-decode both halves, in order.
fn parse_pairs(body: &str) -> (r: Option<Vec<(String, String)>>)
    ensures
        match r {
            Some(ps) => parse_form_spec(body@) == Some(pairs_view(ps@)),
            None => parse_form_spec(body@) is None,
        },
{
    let n = body.unicode_len();
    let mut pairs: Vec<(String, String)> = Vec::new();
    let mut i: usize = 0;
    proof {
        assert(body@.skip(0) =~= body@);
    }
    while i < n
        invariant
            i <= n,
            n == body@.len(),
            parse_form_spec(body@) is Some <==> parse_form_spec(body@.skip(i as int)) is Some,
            parse_form_spec(body@) is Some ==> parse_form_spec(body@)->Some_0 == pairs_view(
                pairs@,
            ) + parse_form_spec(body@.skip(i as int))->Some_0,
        decreases n - i,
    {
        let ghost rem = body@.skip(i as int);
        let ghost pairs0 = pairs@;
        let j = find_in_range(body, i, n, '&');
        proof {
            assert forall|k: int| 0 <= k < j - i implies rem[k] != '&' by {
                assert(rem[k] == body@[i + k]);
            }
            if j < n {
                assert(rem[j - i] == body@[j as int]);
            }
            lemma_first_index_unique(rem, '&', j - i);
        }
        if i < j {
            let ghost seg = rem.take(j - i);
            let e = find_in_range(body, i, j, '=');
            proof {
                assert forall|k: int| 0 <= k < e - i implies seg[k] != '=' by {
                    assert(seg[k] == body@[i + k]);
                }
                if e < j {
                    assert(seg[e - i] == body@[e as int]);
                }
                lemma_first_index_unique(seg, '=', e - i);
            }
            let key_str = body.substring_char(i, e);
            let val_str = if e < j {
                body.substring_char(e + 1, j)
            } else {
                body.substring_char(j, j)
            };
            proof {
                assert(key_str@ =~= seg.take(e - i));
                if e < j {
                    assert(val_str@ =~= seg.skip(e - i + 1));
                } else {
                    assert(val_str@ =~= Seq::<char>::empty());
                }
            }
            let key = match decode_component(key_str) {
                Some(k) => k,
                None => {
                    proof {
                        assert(pair_of_segment(seg) is None);
                        if j == n {
                            assert(seg =~= rem);
                        }
                    }
                    return None;
                },
            };
            let val = match decode_component(val_str) {
                Some(v) => v,
                None => {
                    proof {
                        assert(pair_of_segment(seg) is None);
                        if j == n {
                            assert(seg =~= rem);
                        }
                    }
                    return None;
                },
            };
            proof {
                if j == n {
                    assert(seg =~= rem);
                }
                assert(pair_of_segment(seg) == Some((key@, val@)));
            }
            pairs.push((key, val));
            proof {
                assert(pairs_view(pairs@) =~= pairs_view(pairs0).push((key@, val@)));
            }
        }
        if j < n {
            proof {
                assert(rem.skip(j - i + 1) =~= body@.skip(j + 1));
                if parse_form_spec(body@) is Some {
                    assert(parse_form_spec(body@)->Some_0 =~= pairs_view(pairs@)
                        + parse_form_spec(body@.skip(j + 1))->Some_0);
                }
            }
            i = j + 1;
        } else {
            proof {
                assert(body@.skip(n as int) =~= Seq::<char>::empty());
                if parse_form_spec(body@) is Some {
                    assert(parse_form_spec(body@)->Some_0 =~= pairs_view(pairs@)
                        + parse_form_spec(body@.skip(n as int))->Some_0);
                }
            }
            i = n;
        }
    }
    proof {
        assert(body@.skip(n as int) =~= Seq::<char>::empty());
        if parse_form_spec(body@) is Some {
            assert(parse_form_spec(body@)->Some_0 =~= pairs_view(pairs@));
        }
    }
    Some(pairs)
}

/// Append `value` to the first group named `name`, or open a new group
/// at the end when no group has that name yet.
pub open spec fn insert_value(
    gs: Seq<(Seq<char>, Seq<Seq<char>>)>,
    name: Seq<char>,
    value: Seq<char>,
) -> Seq<(Seq<char>, Seq<Seq<char>>)>
    decreases gs.len(),
{
    if gs.len() == 0 {
        seq![(name, seq![value])]
    } else if gs[0].0 == name {
        seq![(gs[0].0, gs[0].1.push(value))] + gs.skip(1)
    } else {
        seq![gs[0]] + insert_value(gs.skip(1), name, value)
    }
}

/// Group an ordered pair list by name: names keep the order of their
/// first occurrence, and each name keeps its values in order.
pub open spec fn group_pairs(ps: Seq<(Seq<char>, Seq<char>)>) -> Seq<(Seq<char>, Seq<Seq<char>>)>
    decreases ps.len(),
{
    if ps.len() == 0 {
        Seq::empty()
    } else {
        insert_value(group_pairs(ps.drop_last()), ps.last().0, ps.last().1)
    }
}

/// The values of the first group named `name`, or `None` when no group
/// has that name.
pub open spec fn lookup(gs: Seq<(Seq<char>, Seq<Seq<char>>)>, name: Seq<char>) -> Option<
    Seq<Seq<char>>,
>
    decreases gs.len(),
{
    if gs.len() == 0 {
        None
    } else if gs[0].0 == name {
        Some(gs[0].1)
    } else {
        lookup(gs.skip(1), name)
    }
}

/// The views of a vector of named value groups.
pub open spec fn groups_view(es: Seq<(String, Vec<String>)>) -> Seq<(Seq<char>, Seq<Seq<char>>)> {
    es.map(|i: int, e: (String, Vec<String>)| (e.0@, e.1.deep_view()))
}

/// One parsed form: each parameter name, in order of first occurrence,
/// with the ordered sequence of raw values given for it. A name may
/// also be present with no values at all; a form read off the wire
/// never contains such a group, but the validator accounts for one.
pub struct ParsedForm {
    pub entries: Vec<(String, Vec<String>)>,
}

impl View for ParsedForm {
    type V = Seq<(Seq<char>, Seq<Seq<char>>)>;

    open spec fn view(&self) -> Seq<(Seq<char>, Seq<Seq<char>>)> {
        groups_view(self.entries@)
    }
}

proof fn lemma_lookup_found(gs: Seq<(Seq<char>, Seq<Seq<char>>)>, name: Seq<char>, j: int)
    requires
        0 <= j < gs.len(),
        gs[j].0 == name,
        forall|k: int| 0 <= k < j ==> gs[k].0 != name,
    ensures
        lookup(gs, name) == Some(gs[j].1),
    decreases j,
{
    if j > 0 {
        assert forall|k: int| 0 <= k < j - 1 implies gs.skip(1)[k].0 != name by {
            assert(gs.skip(1)[k] == gs[k + 1]);
        }
        lemma_lookup_found(gs.skip(1), name, j - 1);
    }
}

proof fn lemma_lookup_absent(gs: Seq<(Seq<char>, Seq<Seq<char>>)>, name: Seq<char>)
    requires
        forall|k: int| 0 <= k < gs.len() ==> gs[k].0 != name,
    ensures
        lookup(gs, name) is None,
    decreases gs.len(),
{
    if gs.len() > 0 {
        assert forall|k: int| 0 <= k < gs.skip(1).len() implies gs.skip(1)[k].0 != name by {
            assert(gs.skip(1)[k] == gs[k + 1]);
        }
        lemma_lookup_absent(gs.skip(1), name);
    }
}

impl ParsedForm {
    /// All values given for `name`, in order, or `None` when the name
    /// never occurs in the form.
    pub fn get<'a>(&'a self, name: &str) -> (r: Option<&'a Vec<String>>)
        ensures
            match r {
                Some(vs) => lookup(self@, name@) == Some(vs.deep_view()),
                None => lookup(self@, name@) is None,
            },
    {
        let mut g: usize = 0;
        while g < self.entries.len()
            invariant
                g <= self.entries.len(),
                forall|k: int| 0 <= k < g ==> self@[k].0 != name@,
            decreases self.entries.len() - g,
        {
            if str_eq(self.entries[g].0.as_str(), name) {
                proof {
                    lemma_lookup_found(self@, name@, g as int);
                }
                return Some(&self.entries[g].1);
            }
            g = g + 1;
        }
        proof {
            lemma_lookup_absent(self@, name@);
        }
        None
    }
}

proof fn lemma_insert_value_found(
    gs: Seq<(Seq<char>, Seq<Seq<char>>)>,
    name: Seq<char>,
    value: Seq<char>,
    j: int,
)
    requires
        0 <= j < gs.len(),
        gs[j].0 == name,
        forall|k: int| 0 <= k < j ==> gs[k].0 != name,
    ensures
        insert_value(gs, name, value) == gs.update(j, (gs[j].0, gs[j].1.push(value))),
    decreases j,
{
    if j == 0 {
        assert(insert_value(gs, name, value) =~= gs.update(0, (gs[0].0, gs[0].1.push(value))));
    } else {
        assert forall|k: int| 0 <= k < j - 1 implies gs.skip(1)[k].0 != name by {
            assert(gs.skip(1)[k] == gs[k + 1]);
        }
        lemma_insert_value_found(gs.skip(1), name, value, j - 1);
        assert(insert_value(gs, name, value) =~= gs.update(j, (gs[j].0, gs[j].1.push(value))));
    }
}

proof fn lemma_insert_value_absent(
    gs: Seq<(Seq<char>, Seq<Seq<char>>)>,
    name: Seq<char>,
    value: Seq<char>,
)
    requires
        forall|k: int| 0 <= k < gs.len() ==> gs[k].0 != name,
    ensures
        insert_value(gs, name, value) == gs.push((name, seq![value])),
    decreases gs.len(),
{
    if gs.len() == 0 {
        assert(insert_value(gs, name, value) =~= gs.push((name, seq![value])));
    } else {
        assert forall|k: int| 0 <= k < gs.skip(1).len() implies gs.skip(1)[k].0 != name by {
            assert(gs.skip(1)[k] == gs[k + 1]);
        }
        lemma_insert_value_absent(gs.skip(1), name, value);
        assert(insert_value(gs, name, value) =~= gs.push((name, seq![value])));
    }
}

/// Append one value to its name's group, as `insert_value` describes.
fn push_value(entries: &mut Vec<(String, Vec<String>)>, name: String, value: String)
    ensures
        groups_view(final(entries)@) == insert_value(groups_view(old(entries)@), name@, value@),
{
    let ghost gs = groups_view(entries@);
    let mut g: usize = 0;
    while g < entries.len()
        invariant
            g <= entries.len(),
            gs == groups_view(old(entries)@),
            gs == groups_view(entries@),
            forall|k: int| 0 <= k < g ==> gs[k].0 != name@,
        decreases entries.len() - g,
    {
        if str_eq(entries[g].0.as_str(), name.as_str()) {
            let mut entry = entries.remove(g);
            entry.1.push(value);
            entries.insert(g, entry);
            proof {
                lemma_insert_value_found(gs, name@, value@, g as int);
                assert(groups_view(entries@) =~~= gs.update(
                    g as int,
                    (gs[g as int].0, gs[g as int].1.push(value@)),
                ));
            }
            return;
        }
        g = g + 1;
    }
    entries.push((name, value_singleton(value)));
    proof {
        lemma_insert_value_absent(gs, entries@.last().0@, entries@.last().1.deep_view()[0]);
        assert(groups_view(entries@) =~~= gs.push(
            (entries@.last().0@, seq![entries@.last().1.deep_view()[0]]),
        ));
    }
}

/// A one-element value list.
fn value_singleton(value: String) -> (r: Vec<String>)
    ensures
        r.deep_view() == seq![value@],
{
    let mut r: Vec<String> = Vec::new();
    r.push(value);
    proof {
        assert(r.deep_view() =~~= seq![r@[0]@]);
    }
    r
}

/// Decode a form-encoded request body into a [`ParsedForm`]. The only
/// possible failure is a malformed percent escape, reported as
/// [`ApiError::DecodeError`].
pub fn parse_form(body: &str) -> (r: Result<ParsedForm, ApiError>)
    ensures
        match r {
            Ok(form) => parse_form_spec(body@) matches Some(ps) && form@ == group_pairs(ps),
            Err(e) => parse_form_spec(body@) is None && e is DecodeError,
        },
{
    let mut pairs = match parse_pairs(body) {
        Some(ps) => ps,
        None => {
            return Err(ApiError::DecodeError);
        },
    };
    let ghost ps = pairs_view(pairs@);
    let mut entries: Vec<(String, Vec<String>)> = Vec::new();
    let mut k: usize = 0;
    let n = pairs.len();
    proof {
        assert(group_pairs(ps.take(0)) =~= groups_view(entries@));
    }
    while k < n
        invariant
            k <= n,
            n == pairs.len(),
            ps == pairs_view(pairs@),
            groups_view(entries@) == group_pairs(ps.take(k as int)),
        decreases n - k,
    {
        let pair_name = pairs[k].0.clone();
        let pair_value = pairs[k].1.clone();
        proof {
            assert(pair_name@ == ps[k as int].0 && pair_value@ == ps[k as int].1);
            assert(ps.take(k + 1).drop_last() =~= ps.take(k as int));
            assert(ps.take(k + 1).last() == ps[k as int]);
        }
        push_value(&mut entries, pair_name, pair_value);
        k = k + 1;
    }
    proof {
        assert(ps.take(n as int) =~= ps);
    }
    Ok(ParsedForm { entries })
}

} // verus!
