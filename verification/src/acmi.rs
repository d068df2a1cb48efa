//! The grammar of the recording lines that the statistics read.
//!
//! Each matcher describes one line shape as the greedy, leftmost-first
//! reading of a regular expression, anchored at the start of the line, and
//! returns the spans `(start, end)` of its capture groups in the line's
//! characters.

use vstd::prelude::*;
use crate::text::{has_at, lemma_span, matches_at, scan, span, CharClass};

verus! {

pub open spec fn lit_t_field() -> Seq<char> {
    seq![',', 'T', '=']
}

pub open spec fn lit_bar() -> Seq<char> {
    seq!['|']
}

pub open spec fn lit_comma() -> Seq<char> {
    seq![',']
}

pub open spec fn lit_type_field() -> Seq<char> {
    seq![',', 'T', 'y', 'p', 'e', '=']
}

pub open spec fn lit_name_field() -> Seq<char> {
    seq![',', 'N', 'a', 'm', 'e', '=']
}

pub open spec fn lit_pilot_field() -> Seq<char> {
    seq![',', 'P', 'i', 'l', 'o', 't', '=']
}

/// The spans of capture groups, as integers.
pub open spec fn spans_view(v: Seq<(usize, usize)>) -> Seq<(int, int)> {
    v.map_values(|p: (usize, usize)| (p.0 as int, p.1 as int))
}

/// The text of a span.
pub open spec fn group_text(s: Seq<char>, g: (int, int)) -> Seq<char> {
    s.subrange(g.0, g.1)
}

/// The six groups of
/// `^([0-9a-f]+),T=([0-9.-]+)\|([0-9.-]+)\|([0-9.-]+)[0-9.|-]+,Type=([^,]+),Name=([^,]+)`:
/// object id, the three leading transform fields, type and name.
///
/// The fourth field takes the longest run of `[0-9.-]` that still leaves
/// at least one character of `[0-9.|-]` before `,Type=`.
pub open spec fn object_groups(s: Seq<char>) -> Option<Seq<(int, int)>> {
    let e1 = span(s, 0, CharClass::LowerHexDigit);
    let a2 = e1 + 3;
    let e2 = span(s, a2, CharClass::SignedDecimal);
    let a3 = e2 + 1;
    let e3 = span(s, a3, CharClass::SignedDecimal);
    let a4 = e3 + 1;
    let r = span(s, a4, CharClass::SignedDecimal);
    let t = span(s, a4, CharClass::TransformField);
    let e4 = if r < t {
        r
    } else {
        r - 1
    };
    let a5 = t + 6;
    let e5 = span(s, a5, CharClass::NotComma);
    let a6 = e5 + 6;
    let e6 = span(s, a6, CharClass::NotComma);
    if e1 > 0 && has_at(s, e1, lit_t_field()) && e2 > a2 && has_at(s, e2, lit_bar()) && e3 > a3
        && has_at(s, e3, lit_bar()) && e4 > a4 && has_at(s, t, lit_type_field()) && e5 > a5
        && has_at(s, e5, lit_name_field()) && e6 > a6 {
        Some(seq![(0, e1), (a2, e2), (a3, e3), (a4, e4), (a5, e5), (a6, e6)])
    } else {
        None
    }
}

/// The seven groups of the same expression followed by `,Pilot=([^,]+)`:
/// the six groups of [`object_groups`], then the pilot's name.
pub open spec fn pilot_groups(s: Seq<char>) -> Option<Seq<(int, int)>> {
    match object_groups(s) {
        Some(g) => {
            let a7 = g[5].1 + 7;
            let e7 = span(s, a7, CharClass::NotComma);
            if has_at(s, g[5].1, lit_pilot_field()) && e7 > a7 {
                Some(g.push((a7, e7)))
            } else {
                None
            }
        },
        None => None,
    }
}

/// The group of `^([0-9a-f]+),`: the object id.
pub open spec fn object_id_group(s: Seq<char>) -> Option<(int, int)> {
    let e1 = span(s, 0, CharClass::LowerHexDigit);
    if e1 > 0 && has_at(s, e1, lit_comma()) {
        Some((0, e1))
    } else {
        None
    }
}

/// The four groups of `^(ID),T=([0-9.]*)\|([0-9.]*)\|([0-9.]*)`, where `ID`
/// stands for the text before the first comma: which texts `ID` may be is
/// decided by the caller.
pub open spec fn telemetry_groups(s: Seq<char>) -> Option<Seq<(int, int)>> {
    let c = span(s, 0, CharClass::NotComma);
    let a2 = c + 3;
    let e2 = span(s, a2, CharClass::UnsignedDecimal);
    let a3 = e2 + 1;
    let e3 = span(s, a3, CharClass::UnsignedDecimal);
    let a4 = e3 + 1;
    let e4 = span(s, a4, CharClass::UnsignedDecimal);
    if has_at(s, c, lit_t_field()) && has_at(s, e2, lit_bar()) && has_at(s, e3, lit_bar()) {
        Some(seq![(0, c), (a2, e2), (a3, e3), (a4, e4)])
    } else {
        None
    }
}

/// A capture group lies within the line.
pub open spec fn group_in(s: Seq<char>, g: (int, int)) -> bool {
    0 <= g.0 <= g.1 <= s.len()
}

pub proof fn lemma_object_groups_in(s: Seq<char>)
    ensures
        object_groups(s) matches Some(g) ==> g.len() == 6 && forall|k: int|
            0 <= k < 6 ==> group_in(s, #[trigger] g[k]),
{
    if object_groups(s) is Some {
        let e1 = span(s, 0, CharClass::LowerHexDigit);
        lemma_span(s, 0, CharClass::LowerHexDigit);
        let a2 = e1 + 3;
        lemma_span(s, a2, CharClass::SignedDecimal);
        let e2 = span(s, a2, CharClass::SignedDecimal);
        lemma_span(s, e2 + 1, CharClass::SignedDecimal);
        let e3 = span(s, e2 + 1, CharClass::SignedDecimal);
        lemma_span(s, e3 + 1, CharClass::SignedDecimal);
        lemma_span(s, e3 + 1, CharClass::TransformField);
        let t = span(s, e3 + 1, CharClass::TransformField);
        lemma_span(s, t + 6, CharClass::NotComma);
        let e5 = span(s, t + 6, CharClass::NotComma);
        lemma_span(s, e5 + 6, CharClass::NotComma);
    }
}

fn t_field() -> (r: &'static [char])
    ensures
        r@ == lit_t_field(),
{
    let r: &'static [char] = &[',', 'T', '='];
    assert(r@ =~= lit_t_field());
    r
}

fn bar() -> (r: &'static [char])
    ensures
        r@ == lit_bar(),
{
    let r: &'static [char] = &['|'];
    assert(r@ =~= lit_bar());
    r
}

fn comma() -> (r: &'static [char])
    ensures
        r@ == lit_comma(),
{
    let r: &'static [char] = &[','];
    assert(r@ =~= lit_comma());
    r
}

fn type_field() -> (r: &'static [char])
    ensures
        r@ == lit_type_field(),
{
    let r: &'static [char] = &[',', 'T', 'y', 'p', 'e', '='];
    assert(r@ =~= lit_type_field());
    r
}

fn name_field() -> (r: &'static [char])
    ensures
        r@ == lit_name_field(),
{
    let r: &'static [char] = &[',', 'N', 'a', 'm', 'e', '='];
    assert(r@ =~= lit_name_field());
    r
}

fn pilot_field() -> (r: &'static [char])
    ensures
        r@ == lit_pilot_field(),
{
    let r: &'static [char] = &[',', 'P', 'i', 'l', 'o', 't', '='];
    assert(r@ =~= lit_pilot_field());
    r
}

pub proof fn lemma_pilot_groups_in(s: Seq<char>)
    ensures
        pilot_groups(s) matches Some(g) ==> g.len() == 7 && forall|k: int|
            0 <= k < 7 ==> group_in(s, #[trigger] g[k]),
{
    lemma_object_groups_in(s);
    if let Some(g) = object_groups(s) {
        if let Some(p) = pilot_groups(s) {
            lemma_span(s, g[5].1 + 7, CharClass::NotComma);
            assert forall|k: int| 0 <= k < 7 implies group_in(s, #[trigger] p[k]) by {
                if k < 6 {
                    assert(p[k] == g[k]);
                }
            }
        }
    }
}

pub proof fn lemma_object_id_group_in(s: Seq<char>)
    ensures
        object_id_group(s) matches Some(g) ==> group_in(s, g),
{
    lemma_span(s, 0, CharClass::LowerHexDigit);
}

pub proof fn lemma_telemetry_groups_in(s: Seq<char>)
    ensures
        telemetry_groups(s) matches Some(g) ==> g.len() == 4 && forall|k: int|
            0 <= k < 4 ==> group_in(s, #[trigger] g[k]),
{
    if telemetry_groups(s) is Some {
        let c = span(s, 0, CharClass::NotComma);
        lemma_span(s, 0, CharClass::NotComma);
        lemma_span(s, c + 3, CharClass::UnsignedDecimal);
        let e2 = span(s, c + 3, CharClass::UnsignedDecimal);
        lemma_span(s, e2 + 1, CharClass::UnsignedDecimal);
        let e3 = span(s, e2 + 1, CharClass::UnsignedDecimal);
        lemma_span(s, e3 + 1, CharClass::UnsignedDecimal);
    }
}

/// Matches [`object_groups`].
pub fn match_object(s: &Vec<char>) -> (r: Option<Vec<(usize, usize)>>)
    ensures
        match r {
            Some(v) => object_groups(s@) == Some(spans_view(v@)),
            None => object_groups(s@) is None,
        },
{
    let n = s.len();
    assert(n == s@.len());
    let e1 = scan(s, 0, CharClass::LowerHexDigit);
    if !(e1 > 0 && matches_at(s, e1, t_field())) {
        return None;
    }
    let a2 = e1 + 3;
    let e2 = scan(s, a2, CharClass::SignedDecimal);
    if !(e2 > a2 && matches_at(s, e2, bar())) {
        return None;
    }
    let a3 = e2 + 1;
    let e3 = scan(s, a3, CharClass::SignedDecimal);
    if !(e3 > a3 && matches_at(s, e3, bar())) {
        return None;
    }
    let a4 = e3 + 1;
    let r = scan(s, a4, CharClass::SignedDecimal);
    let t = scan(s, a4, CharClass::TransformField);
    let e4 = if r < t {
        r
    } else {
        if r == 0 {
            return None;
        }
        r - 1
    };
    if !(e4 > a4 && matches_at(s, t, type_field())) {
        return None;
    }
    let a5 = t + 6;
    let e5 = scan(s, a5, CharClass::NotComma);
    if !(e5 > a5 && matches_at(s, e5, name_field())) {
        return None;
    }
    let a6 = e5 + 6;
    let e6 = scan(s, a6, CharClass::NotComma);
    if !(e6 > a6) {
        return None;
    }
    let v = vec![(0, e1), (a2, e2), (a3, e3), (a4, e4), (a5, e5), (a6, e6)];
    assert(spans_view(v@) =~= seq![
        (0int, e1 as int),
        (a2 as int, e2 as int),
        (a3 as int, e3 as int),
        (a4 as int, e4 as int),
        (a5 as int, e5 as int),
        (a6 as int, e6 as int),
    ]);
    Some(v)
}

/// Matches [`pilot_groups`].
pub fn match_pilot(s: &Vec<char>) -> (r: Option<Vec<(usize, usize)>>)
    ensures
        match r {
            Some(v) => pilot_groups(s@) == Some(spans_view(v@)),
            None => pilot_groups(s@) is None,
        },
{
    match match_object(s) {
        None => None,
        Some(mut v) => {
            proof {
                lemma_object_groups_in(s@);
            }
            let n = s.len();
            let e6 = v[5].1;
            assert(e6 as int == spans_view(v@)[5].1);
            if !matches_at(s, e6, pilot_field()) {
                return None;
            }
            let a7 = e6 + 7;
            let e7 = scan(s, a7, CharClass::NotComma);
            if !(e7 > a7) {
                return None;
            }
            let ghost before = spans_view(v@);
            v.push((a7, e7));
            assert(spans_view(v@) =~= before.push((a7 as int, e7 as int)));
            Some(v)
        },
    }
}

/// Matches [`object_id_group`].
pub fn match_object_id(s: &Vec<char>) -> (r: Option<usize>)
    ensures
        match r {
            Some(e) => object_id_group(s@) == Some((0int, e as int)),
            None => object_id_group(s@) is None,
        },
{
    let e1 = scan(s, 0, CharClass::LowerHexDigit);
    if e1 > 0 && matches_at(s, e1, comma()) {
        Some(e1)
    } else {
        None
    }
}

/// Matches [`telemetry_groups`].
pub fn match_telemetry(s: &Vec<char>) -> (r: Option<Vec<(usize, usize)>>)
    ensures
        match r {
            Some(v) => telemetry_groups(s@) == Some(spans_view(v@)),
            None => telemetry_groups(s@) is None,
        },
{
    let n = s.len();
    assert(n == s@.len());
    let c = scan(s, 0, CharClass::NotComma);
    if !matches_at(s, c, t_field()) {
        return None;
    }
    let a2 = c + 3;
    let e2 = scan(s, a2, CharClass::UnsignedDecimal);
    if !matches_at(s, e2, bar()) {
        return None;
    }
    let a3 = e2 + 1;
    let e3 = scan(s, a3, CharClass::UnsignedDecimal);
    if !matches_at(s, e3, bar()) {
        return None;
    }
    let a4 = e3 + 1;
    let e4 = scan(s, a4, CharClass::UnsignedDecimal);
    let v = vec![(0, c), (a2, e2), (a3, e3), (a4, e4)];
    assert(spans_view(v@) =~= seq![
        (0int, c as int),
        (a2 as int, e2 as int),
        (a3 as int, e3 as int),
        (a4 as int, e4 as int),
    ]);
    Some(v)
}

} // verus!
