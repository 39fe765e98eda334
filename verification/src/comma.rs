//! A comma put before a closing brace.
//!
//! The lemmas here compare a text with the same text after one comma was
//! put in at a place `x` where a closing brace stands. Before `x` the two
//! texts are the same, and behind it the second is the first moved on by
//! one. They lead to the law that a comma behind the last tag of an entry
//! changes nothing of what is read.

use vstd::prelude::*;
use crate::grammar::{
    at, body_end, close_at, end_of, entry_body, group_end, item_at, key_end, label_end,
    label_start, lemma_body, lemma_pairs_bounds, lemma_run, of_kind, pair_at, pairs_from,
    run_end, skip, tags_start, text_of, type_end, value_at, value_start, Glyph, Kind, Step,
};

verus! {

/// Whether `u` is `t` with a comma put in at `x`.
spec fn with_comma(t: Seq<Glyph>, x: int, u: Seq<Glyph>) -> bool {
    &&& 0 <= x <= t.len()
    &&& u.len() == t.len() + 1
    &&& forall|i: int| 0 <= i < x ==> #[trigger] u[i] == t[i]
    &&& u[x].ch == ','
    &&& forall|i: int| x <= i < t.len() ==> #[trigger] u[i + 1] == t[i]
}

/// Behind the comma a run is the same run, moved on by one.
proof fn lemma_run_behind(t: Seq<Glyph>, x: int, u: Seq<Glyph>, q: int, k: Kind)
    requires
        with_comma(t, x, u),
        x <= q <= t.len(),
    ensures
        run_end(u, q + 1, k) == run_end(t, q, k) + 1,
    decreases t.len() - q,
{
    if q < t.len() {
        if of_kind(t[q], k) {
            lemma_run_behind(t, x, u, q + 1, k);
        }
    }
}

/// Behind the comma a body and a group are the same, moved on by one.
proof fn lemma_body_behind(t: Seq<Glyph>, x: int, u: Seq<Glyph>, q: int)
    requires
        with_comma(t, x, u),
        x <= q <= t.len(),
    ensures
        body_end(u, q + 1) == body_end(t, q) + 1,
        match group_end(t, q) {
            Some(e) => group_end(u, q + 1) == Some(e + 1),
            None => group_end(u, q + 1) is None,
        },
    decreases t.len() - q,
{
    if q < t.len() {
        lemma_body_behind(t, x, u, q + 1);
        lemma_body(t, q);
        if let Some(e) = group_end(t, q) {
            lemma_body_behind(t, x, u, e);
        }
    }
}

/// Up to a closing brace at `x`, blanks, letters and digits run alike in
/// both texts: neither the brace nor the comma is one of them.
proof fn lemma_run_before(t: Seq<Glyph>, x: int, u: Seq<Glyph>, q: int, k: Kind)
    requires
        with_comma(t, x, u),
        at(t, x, '}'),
        0 <= q <= x,
        k != Kind::Plain,
    ensures
        run_end(u, q, k) == run_end(t, q, k),
        run_end(t, q, k) <= x,
    decreases x - q,
{
    if q < x {
        if of_kind(t[q], k) {
            lemma_run_before(t, x, u, q + 1, k);
        }
    }
}

/// Where a body or a group ends after the comma is put in, given where
/// it ended before.
spec fn moved(x: int, e: int) -> int {
    if e <= x {
        e
    } else {
        e + 1
    }
}

/// Up to a closing brace at `x` that is not preceded by an opening one,
/// bodies and groups are alike in both texts: a body that reached `x`
/// now takes the comma in and ends behind it, and what ended behind `x`
/// ends one further on.
proof fn lemma_body_before(t: Seq<Glyph>, x: int, u: Seq<Glyph>, q: int)
    requires
        with_comma(t, x, u),
        at(t, x, '}'),
        x > 0 ==> t[x - 1].ch != '{',
        0 <= q <= x,
    ensures
        body_end(u, q) == (if body_end(t, q) < x {
            body_end(t, q)
        } else {
            body_end(t, q) + 1
        }),
        q < x ==> (match group_end(t, q) {
            Some(e) => group_end(u, q) == Some(moved(x, e)),
            None => group_end(u, q) is None,
        }),
    decreases t.len() - q,
{
    if q == x {
        assert(group_end(u, x + 1) is None);
        assert(body_end(u, x + 1) == x + 1);
    } else {
        lemma_body_before(t, x, u, q + 1);
        if let Some(e) = group_end(t, q) {
            if e <= x {
                lemma_body_before(t, x, u, e);
            } else {
                lemma_body_behind(t, x, u, e);
                lemma_body(t, e);
            }
        }
    }
}

/// Before the comma the two texts hold the same characters.
proof fn lemma_text_before(t: Seq<Glyph>, x: int, u: Seq<Glyph>, from: int, to: int)
    requires
        with_comma(t, x, u),
        0 <= from <= to <= x,
    ensures
        text_of(u, from, to) == text_of(t, from, to),
{
}

/// A value that ends before the closing brace is the same value in both
/// texts.
proof fn lemma_value_before(t: Seq<Glyph>, x: int, u: Seq<Glyph>, q: int)
    requires
        with_comma(t, x, u),
        at(t, x, '}'),
        x > 0 ==> t[x - 1].ch != '{',
        0 <= q <= x,
        value_at(t, q) matches Some((v, e)) && e <= x,
    ensures
        value_at(u, q) == value_at(t, q),
{
    lemma_body(t, q);
    lemma_run_before(t, x, u, q, Kind::Alnum);
    lemma_body_before(t, x, u, q);
}

/// What ends a value is never an opening brace.
proof fn lemma_value_last(t: Seq<Glyph>, q: int)
    requires
        0 <= q <= t.len(),
        value_at(t, q) is Some,
    ensures
        0 < end_of(value_at(t, q)) <= t.len(),
        t[end_of(value_at(t, q)) - 1].ch != '{',
{
    lemma_run(t, q, Kind::Alnum);
}

/// The places of a pair that is found stand in their order.
proof fn lemma_pair_places(t: Seq<Glyph>, p: int)
    requires
        0 <= p,
        pair_at(t, p) is Found,
    ensures
        p <= skip(t, p) < key_end(t, p) <= skip(t, key_end(t, p)) < value_start(t, p),
        value_at(t, value_start(t, p)) matches Some((v, ve)) && value_start(t, p) < ve <= skip(
            t,
            ve,
        ) && skip(t, ve) == pair_at(t, p)->Found_1 && skip(t, ve) <= t.len(),
        t[pair_at(t, p)->Found_1 - 1].ch != '{',
{
    lemma_run(t, p, Kind::Space);
    let k = skip(t, p);
    lemma_run(t, k, Kind::Letter);
    let ke = key_end(t, p);
    lemma_run(t, ke, Kind::Space);
    let q = skip(t, ke);
    lemma_run(t, q + 1, Kind::Space);
    let vs = value_start(t, p);
    lemma_value_last(t, vs);
    let ve = end_of(value_at(t, vs));
    lemma_run(t, ve, Kind::Space);
}

/// A pair that ends before the closing brace is the same pair in both
/// texts.
proof fn lemma_pair_before(t: Seq<Glyph>, x: int, u: Seq<Glyph>, p: int)
    requires
        with_comma(t, x, u),
        at(t, x, '}'),
        x > 0 ==> t[x - 1].ch != '{',
        0 <= p,
        pair_at(t, p) matches Step::Found(kv, e) && e <= x,
    ensures
        pair_at(u, p) == pair_at(t, p),
{
    lemma_pair_places(t, p);
    let k = skip(t, p);
    let ke = key_end(t, p);
    let q = skip(t, ke);
    let vs = value_start(t, p);
    let ve = end_of(value_at(t, vs));
    lemma_run_before(t, x, u, p, Kind::Space);
    lemma_run_before(t, x, u, k, Kind::Letter);
    lemma_run_before(t, x, u, ke, Kind::Space);
    lemma_run_before(t, x, u, q + 1, Kind::Space);
    lemma_value_before(t, x, u, vs);
    lemma_run_before(t, x, u, ve, Kind::Space);
    lemma_text_before(t, x, u, k, ke);
}

/// The list of pairs that ends, blanks apart, before the closing brace
/// is the same list in both texts, and ends at the same place.
proof fn lemma_pairs_before(t: Seq<Glyph>, x: int, u: Seq<Glyph>, p: int)
    requires
        with_comma(t, x, u),
        at(t, x, '}'),
        x > 0 ==> t[x - 1].ch != '{',
        0 <= p,
        pairs_from(t, p) matches Some((pairs, e)) && skip(t, e) == x,
    ensures
        pairs_from(u, p) == pairs_from(t, p),
    decreases t.len() - p,
{
    let e = end_of(pairs_from(t, p));
    lemma_run(t, e, Kind::Space);
    match pair_at(t, p) {
        Step::Absent => {
            lemma_run_before(t, x, u, p, Kind::Space);
        },
        Step::Broken => {},
        Step::Found(kv, e1) => {
            lemma_pair_places(t, p);
            if at(t, e1, ',') && !(pair_at(t, e1 + 1) is Absent) {
                lemma_pairs_bounds(t, e1 + 1);
                lemma_pair_before(t, x, u, p);
                lemma_pairs_before(t, x, u, e1 + 1);
                lemma_pair_tail(t, e1 + 1);
                lemma_pair_before(t, x, u, e1 + 1);
            } else {
                lemma_pair_before(t, x, u, p);
            }
        },
    }
}

/// A list does not end before its first pair does.
proof fn lemma_pair_tail(t: Seq<Glyph>, p: int)
    requires
        0 <= p <= t.len(),
        pair_at(t, p) is Found,
        pairs_from(t, p) is Some,
    ensures
        pair_at(t, p)->Found_1 <= end_of(pairs_from(t, p)),
{
    let e1 = pair_at(t, p)->Found_1;
    if at(t, e1, ',') && !(pair_at(t, e1 + 1) is Absent) {
        lemma_pairs_bounds(t, e1 + 1);
    }
}

/// What ends a list of pairs that is not empty is never an opening
/// brace.
proof fn lemma_pairs_last(t: Seq<Glyph>, p: int)
    requires
        0 <= p <= t.len(),
        pair_at(t, p) is Found,
        pairs_from(t, p) is Some,
    ensures
        0 < end_of(pairs_from(t, p)) <= t.len(),
        t[end_of(pairs_from(t, p)) - 1].ch != '{',
    decreases t.len() - p,
{
    lemma_pair_places(t, p);
    let e1 = pair_at(t, p)->Found_1;
    if at(t, e1, ',') && !(pair_at(t, e1 + 1) is Absent) {
        lemma_pairs_last(t, e1 + 1);
    }
}

/// Putting a glyph in gives a text with it at its place, the glyphs
/// before it unmoved and those behind it moved on by one.
proof fn lemma_insert(t: Seq<Glyph>, x: int, comma: Glyph)
    requires
        0 <= x <= t.len(),
        comma.ch == ',',
    ensures
        with_comma(t, x, t.insert(x, comma)),
{
}

/// The close of a list, with the brace at `x` and blanks only before
/// it, is still its close when a comma stands before the brace.
proof fn lemma_close(t: Seq<Glyph>, x: int, u: Seq<Glyph>, e: int)
    requires
        with_comma(t, x, u),
        at(t, x, '}'),
        0 <= e,
        skip(t, e) == x,
    ensures
        close_at(t, e) == Some(skip(t, x + 1)),
        close_at(u, e) == Some(skip(t, x + 1) + 1),
{
    lemma_run(t, e, Kind::Space);
    lemma_run_before(t, x, u, e, Kind::Space);
    lemma_run_behind(t, x, u, x + 1, Kind::Space);
}

/// A comma behind the last pair of a list changes nothing of what is
/// read: where a list of pairs is followed, blanks apart, by a closing
/// brace, the same list is read when a comma stands before that brace,
/// and the brace still closes the list, one place further on.
pub proof fn law_trailing_comma(t: Seq<Glyph>, p: int, x: int, comma: Glyph)
    requires
        comma.ch == ',',
        0 <= p,
        at(t, x, '}'),
        pairs_from(t, p) is Some,
        skip(t, end_of(pairs_from(t, p))) == x,
    ensures
        pairs_from(t.insert(x, comma), p) == pairs_from(t, p),
        close_at(t, end_of(pairs_from(t, p))) matches Some(n) && close_at(
            t.insert(x, comma),
            end_of(pairs_from(t, p)),
        ) == Some(n + 1),
{
    let u = t.insert(x, comma);
    let e = end_of(pairs_from(t, p));
    lemma_insert(t, x, comma);
    lemma_run(t, e, Kind::Space);
    lemma_close(t, x, u, e);
    if pair_at(t, p) is Found {
        lemma_pairs_last(t, p);
        lemma_pairs_before(t, x, u, p);
    }
}

/// Where the tags of the entry at `p` end.
pub open spec fn tags_end(t: Seq<Glyph>, p: int) -> int {
    end_of(pairs_from(t, tags_start(t, skip(t, p) + 1)))
}

/// A comma behind the last tag of an entry changes nothing of the entry:
/// where an entry closes with the brace at `x` and only blanks stand
/// between its tags and that brace, the same entry is read when a comma
/// stands before the brace, and it ends one place further on.
pub proof fn law_trailing_comma_in_entry(t: Seq<Glyph>, p: int, x: int, comma: Glyph)
    requires
        comma.ch == ',',
        0 <= p,
        item_at(t, p) matches Step::Found(item, end) && item is Entry,
        at(t, x, '}'),
        skip(t, tags_end(t, p)) == x,
    ensures
        item_at(t.insert(x, comma), p) == (match item_at(t, p) {
            Step::Found(item, end) => Step::Found(item, end + 1),
            other => other,
        }),
{
    let u = t.insert(x, comma);
    lemma_insert(t, x, comma);
    let a = skip(t, p);
    lemma_run(t, p, Kind::Space);
    let w = skip(t, a + 1);
    lemma_run(t, a + 1, Kind::Space);
    let we = type_end(t, a + 1);
    let o = skip(t, we);
    lemma_run(t, we, Kind::Space);
    let l = label_start(t, a + 1);
    lemma_run(t, o + 1, Kind::Space);
    let le = label_end(t, a + 1);
    lemma_run(t, le, Kind::Space);
    let ts = tags_start(t, a + 1);
    lemma_pairs_bounds(t, ts);
    let e = tags_end(t, p);
    lemma_run(t, e, Kind::Space);
    law_trailing_comma(t, ts, x, comma);
    lemma_run_before(t, x, u, p, Kind::Space);
    lemma_run_before(t, x, u, a + 1, Kind::Space);
    lemma_run_before(t, x, u, w, Kind::Letter);
    lemma_run_before(t, x, u, we, Kind::Space);
    lemma_run_before(t, x, u, o + 1, Kind::Space);
    lemma_run_before(t, x, u, l, Kind::Alnum);
    lemma_run_before(t, x, u, le, Kind::Space);
    lemma_text_before(t, x, u, w, we);
    lemma_text_before(t, x, u, l, le);
    assert(entry_body(u, a + 1) == (match entry_body(t, a + 1) {
        Step::Found(item, end) => Step::Found(item, end + 1),
        other => other,
    }));
}

/// Where the tags of the string macro at `p` end.
pub open spec fn macro_tags_end(t: Seq<Glyph>, p: int) -> int {
    end_of(pairs_from(t, skip(t, skip(t, p) + 7) + 1))
}

/// A comma behind the last tag of a string macro changes nothing of the
/// macro: where it closes with the brace at `x` and only blanks stand
/// between its tags and that brace, the same macro is read when a comma
/// stands before the brace, and it ends one place further on.
pub proof fn law_trailing_comma_in_macro(t: Seq<Glyph>, p: int, x: int, comma: Glyph)
    requires
        comma.ch == ',',
        0 <= p,
        item_at(t, p) matches Step::Found(item, end) && item is String,
        at(t, x, '}'),
        skip(t, macro_tags_end(t, p)) == x,
    ensures
        item_at(t.insert(x, comma), p) == (match item_at(t, p) {
            Step::Found(item, end) => Step::Found(item, end + 1),
            other => other,
        }),
{
    let u = t.insert(x, comma);
    let a = skip(t, p);
    lemma_run(t, p, Kind::Space);
    let o = skip(t, a + 7);
    lemma_run(t, a + 7, Kind::Space);
    law_trailing_comma(t, o + 1, x, comma);
    lemma_run_before(t, x, u, p, Kind::Space);
    lemma_run_before(t, x, u, a + 7, Kind::Space);
}

} // verus!
