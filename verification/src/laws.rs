//! What holds of the notation as a whole.
//!
//! Each function here states one law in the terms of [`crate::grammar`]
//! and proves it. The laws on a comma before a closing brace stand in
//! [`crate::comma`], the law on reading what was written in
//! [`crate::roundtrip`].

use vstd::prelude::*;
use crate::bibfile::{kept_order, normal, normal_all, BibItemView};
use crate::grammar::{
    at, body_end, closer, comment_word, entry_body, group_at, group_end, is_alnum, is_plain,
    item_at, items_from, label_end, label_start, lemma_run, of_kind, pair_at, pairs_from,
    preamble_word, run_end, skip, string_word, tags_start, text_of, type_end, value_at,
    value_start, Glyph, Kind, Pairs, RawItemView, Step,
};
use crate::tags::{distinct_keys, lemma_put_all, lower_key, lower_keys, map_of};

verus! {

/// A body runs through plain characters: where only such stand from `p`
/// up to `e`, the body at `p` ends where the body at `e` ends.
pub proof fn lemma_body_over_plain(t: Seq<Glyph>, p: int, e: int)
    requires
        0 <= p <= e <= t.len(),
        forall|i: int| p <= i < e ==> is_plain(#[trigger] t[i].ch),
    ensures
        body_end(t, p) == body_end(t, e),
    decreases e - p,
{
    if p < e {
        lemma_body_over_plain(t, p + 1, e);
    }
}

/// A run of one kind is the longest one: where glyphs of kind `k` stand
/// from `p` up to `e` and none stands at `e`, the run at `p` ends at `e`.
pub proof fn lemma_run_exact(t: Seq<Glyph>, p: int, e: int, k: Kind)
    requires
        0 <= p <= e <= t.len(),
        forall|i: int| p <= i < e ==> of_kind(#[trigger] t[i], k),
        e < t.len() ==> !of_kind(t[e], k),
    ensures
        run_end(t, p, k) == e,
    decreases e - p,
{
    if p < e {
        lemma_run_exact(t, p + 1, e, k);
    }
}

/// A value given without delimiters is the run of letters and digits
/// itself, and the same run between quotes is the same value. The quote
/// behind the run closes the group where no group opens at it.
pub proof fn law_bare_value_equals_quoted(t1: Seq<Glyph>, p1: int, t2: Seq<Glyph>, p2: int)
    requires
        0 <= p1 < t1.len(),
        is_alnum(t1[p1]),
        at(t2, p2, '"'),
        forall|i: int|
            0 <= i < run_end(t1, p1, Kind::Alnum) - p1 ==> 0 <= p2 + 1 + i < t2.len()
                && #[trigger] t2[p2 + 1 + i] == t1[p1 + i],
        at(t2, p2 + 1 + run_end(t1, p1, Kind::Alnum) - p1, '"'),
        group_end(t2, p2 + 1 + run_end(t1, p1, Kind::Alnum) - p1) is None,
    ensures
        value_at(t1, p1) == Some(
            (text_of(t1, p1, run_end(t1, p1, Kind::Alnum)), run_end(t1, p1, Kind::Alnum)),
        ),
        value_at(t2, p2) matches Some((v, e)) && v == text_of(
            t1,
            p1,
            run_end(t1, p1, Kind::Alnum),
        ) && e == p2 + 2 + run_end(t1, p1, Kind::Alnum) - p1,
{
    let e1 = run_end(t1, p1, Kind::Alnum);
    lemma_run(t1, p1, Kind::Alnum);
    let n = e1 - p1;
    let q = p2 + 1 + n;
    assert forall|i: int| p2 + 1 <= i < q implies is_plain(#[trigger] t2[i].ch) by {
        let j = i - p2 - 1;
        assert(t2[p2 + 1 + j] == t1[p1 + j]);
    }
    lemma_body_over_plain(t2, p2 + 1, q);
}

/// A value keeps the braces inside it: where a group in braces, itself
/// of plain characters, stands between plain characters in a value, the
/// value is all that stands between its own delimiters, the inner braces
/// among it. (A value in quotes ends at the quote only where no group
/// opens at that quote.)
pub proof fn law_nested_braces_are_kept(t: Seq<Glyph>, p: int, a: int, b: int, e: int)
    requires
        at(t, p, '{') || at(t, p, '"'),
        p < a < b - 1,
        b < e < t.len(),
        forall|i: int| p < i < a ==> is_plain(#[trigger] t[i].ch),
        at(t, a, '{'),
        forall|i: int| a < i < b ==> is_plain(#[trigger] t[i].ch),
        at(t, b, '}'),
        forall|i: int| b < i < e ==> is_plain(#[trigger] t[i].ch),
        at(t, e, closer(t[p].ch)),
        at(t, p, '"') ==> group_end(t, e) is None,
    ensures
        group_at(t, p) == Some((text_of(t, p + 1, e), e + 1)),
        text_of(t, p + 1, e)[a - p - 1] == '{',
        text_of(t, p + 1, e)[b - p - 1] == '}',
{
    lemma_body_over_plain(t, a + 1, b);
    assert(group_end(t, b) is None);
    assert(group_end(t, a) == Some(b + 1));
    lemma_body_over_plain(t, b + 1, e);
    lemma_body_over_plain(t, p + 1, a);
}

/// Of two pairs with one key the later one stays: a pair after which its
/// key, in lower case, does not come again gives the mapping its value.
pub proof fn law_later_key_wins(pairs: Pairs, j: int)
    requires
        0 <= j < pairs.len(),
        forall|i: int|
            j < i < pairs.len() ==> lower_key(#[trigger] pairs[i]).0 != lower_key(pairs[j]).0,
    ensures
        map_of(lower_keys(pairs)).contains_key(lower_key(pairs[j]).0),
        map_of(lower_keys(pairs))[lower_key(pairs[j]).0] == pairs[j].1,
    decreases pairs.len(),
{
    let low = lower_keys(pairs);
    let last = pairs.len() - 1;
    if j < last {
        let front = pairs.drop_last();
        assert(lower_keys(front) =~= low.drop_last());
        law_later_key_wins(front, j);
    }
}

/// The tags of an item are kept in an order that holds no key twice,
/// and in that order they are the mapping that is kept of the item.
pub proof fn law_kept_tags(raw: RawItemView)
    ensures
        distinct_keys(kept_order(raw)),
        match normal(raw) {
            BibItemView::String(tags) => tags == map_of(kept_order(raw)),
            BibItemView::Entry { entry_type, label, tags } => tags == map_of(kept_order(raw)),
            _ => kept_order(raw) == Pairs::empty(),
        },
{
    match raw {
        RawItemView::String(tags) => {
            lemma_put_all(lower_keys(tags));
        },
        RawItemView::Entry { entry_type, label, tags } => {
            lemma_put_all(lower_keys(tags));
        },
        _ => {},
    }
}

/// Two entries with nothing but blanks between them and nothing behind
/// them are two items, in the order of the text.
pub proof fn law_two_items(t: Seq<Glyph>, first: RawItemView, mid: int, second: RawItemView)
    requires
        item_at(t, 0) == Step::Found(first, mid),
        item_at(t, mid) == Step::Found(second, t.len() as int),
    ensures
        items_from(t, 0) == Some(seq![first, second]),
        normal_all(items_from(t, 0)->0) == seq![normal(first), normal(second)],
{
    let n = t.len() as int;
    assert(items_from(t, n) == Some(Seq::<RawItemView>::empty()));
    assert(items_from(t, mid) == Some(seq![second] + Seq::<RawItemView>::empty()));
}

/// Where no `@` follows the blanks, no item stands.
pub proof fn law_no_item_without_at(t: Seq<Glyph>, p: int)
    requires
        !at(t, skip(t, p), '@'),
    ensures
        item_at(t, p) is Absent,
{
}

/// Whether reading item after item from `from` arrives at `p`.
pub open spec fn arrives(t: Seq<Glyph>, from: int, p: int) -> bool
    decreases t.len() - from,
{
    from == p || (match item_at(t, from) {
        Step::Found(item, e) => from < e <= t.len() && arrives(t, e, p),
        _ => false,
    })
}

/// The items that are read from `from` before reading arrives at `p`.
pub open spec fn items_before(t: Seq<Glyph>, from: int, p: int) -> Seq<RawItemView>
    decreases t.len() - from,
{
    if from == p {
        Seq::empty()
    } else {
        match item_at(t, from) {
            Step::Found(item, e) => if from < e <= t.len() {
                seq![item] + items_before(t, e, p)
            } else {
                Seq::empty()
            },
            _ => Seq::empty(),
        }
    }
}

/// What is not an item ends the document without complaint: where
/// reading arrives at something that is no item, the document is the
/// items read before it, and what stands there is left unread.
pub proof fn law_rest_is_dropped(t: Seq<Glyph>, from: int, p: int)
    requires
        arrives(t, from, p),
        item_at(t, p) is Absent,
    ensures
        items_from(t, from) == Some(items_before(t, from, p)),
    decreases t.len() - from,
{
    if from != p {
        let e = item_at(t, from)->Found_1;
        law_rest_is_dropped(t, e, p);
    }
}

/// An opening brace after which no closing brace comes opens no group.
pub proof fn law_brace_without_close(t: Seq<Glyph>, p: int)
    requires
        at(t, p, '{'),
        forall|i: int| p < i < t.len() ==> (#[trigger] t[i]).ch != '}',
    ensures
        group_end(t, p) is None,
        value_at(t, p) is None,
{
}

/// A value that does not close breaks its pair, the pair breaks its
/// list, and so on up to the document: where a key and `=` are followed
/// by something that is no value, the pair is broken.
pub proof fn law_pair_without_value(t: Seq<Glyph>, p: int)
    requires
        !(pair_at(t, p) is Absent),
        value_at(t, value_start(t, p)) is None,
    ensures
        pair_at(t, p) is Broken,
        pairs_from(t, p) is None,
{
}

/// A broken pair breaks the list that it is reached in.
pub proof fn law_broken_pair_breaks_list(t: Seq<Glyph>, p: int, kv: (Seq<char>, Seq<char>), e: int)
    requires
        pair_at(t, p) == Step::Found(kv, e),
        at(t, e, ','),
        pairs_from(t, e + 1) is None,
    ensures
        pairs_from(t, p) is None,
{
}

/// A broken list breaks the entry that holds it.
pub proof fn law_broken_list_breaks_entry(t: Seq<Glyph>, p: int)
    requires
        !(entry_body(t, p) is Absent),
        pairs_from(t, tags_start(t, p)) is None,
    ensures
        entry_body(t, p) is Broken,
{
}

/// The type of an entry that was read is a run of letters of the text,
/// and its label a run of letters and digits: neither is empty, and
/// neither holds a blank or a mark of the notation.
pub proof fn law_entry_words(t: Seq<Glyph>, p: int)
    requires
        item_at(t, p) matches Step::Found(item, end) && item is Entry,
    ensures
        item_at(t, p)->Found_0->entry_type == text_of(
            t,
            skip(t, skip(t, p) + 1),
            type_end(t, skip(t, p) + 1),
        ),
        skip(t, skip(t, p) + 1) < type_end(t, skip(t, p) + 1) <= t.len(),
        forall|i: int|
            skip(t, skip(t, p) + 1) <= i < type_end(t, skip(t, p) + 1) ==> of_kind(
                #[trigger] t[i],
                Kind::Letter,
            ),
        item_at(t, p)->Found_0->label == text_of(
            t,
            label_start(t, skip(t, p) + 1),
            label_end(t, skip(t, p) + 1),
        ),
        label_start(t, skip(t, p) + 1) < label_end(t, skip(t, p) + 1) <= t.len(),
        forall|i: int|
            label_start(t, skip(t, p) + 1) <= i < label_end(t, skip(t, p) + 1) ==> of_kind(
                #[trigger] t[i],
                Kind::Alnum,
            ),
{
    let a = skip(t, p);
    lemma_run(t, skip(t, a + 1), Kind::Letter);
    lemma_run(t, label_start(t, a + 1), Kind::Alnum);
}

/// Whether an entry has begun at `p`: after blanks an `@` that is not
/// the start of a keyword, a word, and an opening brace.
pub open spec fn entry_begins(t: Seq<Glyph>, p: int) -> bool {
    &&& at(t, skip(t, p), '@')
    &&& !string_word(t, skip(t, p))
    &&& !preamble_word(t, skip(t, p))
    &&& !comment_word(t, skip(t, p))
    &&& !(entry_body(t, skip(t, p) + 1) is Absent)
}

/// One broken item fails the whole document, whatever was read before
/// it: where reading arrives at a broken item, nothing is given back.
pub proof fn law_broken_item_fails_document(t: Seq<Glyph>, from: int, p: int)
    requires
        arrives(t, from, p),
        item_at(t, p) is Broken,
    ensures
        items_from(t, from) is None,
    decreases t.len() - from,
{
    if from != p {
        let e = item_at(t, from)->Found_1;
        law_broken_item_fails_document(t, e, p);
    }
}

/// An opening brace that is never closed, in the value of an entry's
/// first tag, fails the whole document: where reading arrives at such
/// an entry, nothing is given back, neither this entry nor what was read
/// before it.
pub proof fn law_unclosed_brace_fails_document(t: Seq<Glyph>, p: int)
    requires
        arrives(t, 0, p),
        entry_begins(t, p),
        !(pair_at(t, tags_start(t, skip(t, p) + 1)) is Absent),
        at(t, value_start(t, tags_start(t, skip(t, p) + 1)), '{'),
        forall|i: int|
            value_start(t, tags_start(t, skip(t, p) + 1)) < i < t.len() ==> (#[trigger] t[i]).ch
                != '}',
    ensures
        item_at(t, p) is Broken,
        items_from(t, 0) is None,
{
    law_broken_item_fails_document(t, 0, p);
}

} // verus!
