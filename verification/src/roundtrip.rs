//! An entry that is written out and read again.
//!
//! The lemmas here follow the reading of the text that
//! [`crate::bibfile::entry_text`] describes, from the `@` to the empty
//! line at its end. They lead to the law that reading gives back the
//! type, the label and the tags that were written.

use vstd::prelude::*;
use crate::bibfile::{entry_text, kept_order, tag_line, tag_lines, BibItemView};
use crate::grammar::{
    at, body_end, close_at, comment_word, end_of, glyph, group_end, is_digit, is_letter,
    is_plain, is_space, item_at, label_end, label_start, lemma_body, of_kind, pair_at,
    pairs_from, preamble_word, skip, string_word, tags_start, text_of, type_end, value_at, Glyph,
    Kind, Pairs, RawItemView, Step,
};
use crate::laws::lemma_run_exact;
use crate::parser::normal_step;
use crate::source::classified;
use crate::tags::{distinct_keys, lemma_put_all_distinct, lower_keys, map_of};
use crate::unicode::{alphabetic, lowercased, uppercased};

verus! {

/// Whether a character is a letter of the notation.
pub open spec fn letter_char(c: char) -> bool {
    is_letter(glyph(c, alphabetic(c)))
}

/// A word: letters, and at least one.
pub open spec fn is_word(s: Seq<char>) -> bool {
    s.len() > 0 && forall|i: int| 0 <= i < s.len() ==> letter_char(#[trigger] s[i])
}

/// A label: letters and digits, and at least one.
pub open spec fn is_label(s: Seq<char>) -> bool {
    s.len() > 0 && forall|i: int|
        0 <= i < s.len() ==> letter_char(#[trigger] s[i]) || is_digit(s[i])
}

/// A value that can stand between braces: it is not empty, and read on
/// its own as a body it is read to its end.
pub open spec fn is_body(s: Seq<char>) -> bool {
    s.len() > 0 && body_end(classified(s), 0) == s.len()
}

/// Whether a text begins with another.
pub open spec fn begins_with(s: Seq<char>, w: Seq<char>) -> bool {
    w.len() <= s.len() && s.subrange(0, w.len() as int) == w
}

/// Whether a word, put behind `@`, would be taken for one of the three
/// keywords.
pub open spec fn begins_with_keyword(s: Seq<char>) -> bool {
    begins_with(s, seq!['S', 'T', 'R', 'I', 'N', 'G']) || begins_with(
        s,
        seq!['P', 'R', 'E', 'A', 'M', 'B', 'L', 'E'],
    ) || begins_with(s, seq!['C', 'O', 'M', 'M', 'E', 'N', 'T'])
}

/// What an entry must be like to be read again as it was written: its
/// type a word that starts with none of the keywords, its label letters
/// and digits, each key a word and each value a body.
pub open spec fn writable(entry_type: Seq<char>, label: Seq<char>, pairs: Pairs) -> bool {
    &&& is_word(entry_type)
    &&& !begins_with_keyword(entry_type)
    &&& is_label(label)
    &&& forall|i: int|
        0 <= i < pairs.len() ==> is_word((#[trigger] pairs[i]).0) && is_body(pairs[i].1)
}

/// Whether every glyph of a text is classified as the tables say.
spec fn faithful(t: Seq<Glyph>) -> bool {
    forall|i: int| 0 <= i < t.len() ==> (#[trigger] t[i]).letter == alphabetic(t[i].ch)
}

/// The characters from `s` up to the end of the text.
spec fn rest(t: Seq<Glyph>, s: int) -> Seq<char> {
    text_of(t, s, t.len() as int)
}

/// Where the rest of a text is one text followed by another, the first
/// stands at the place and the second behind it.
proof fn lemma_peel(t: Seq<Glyph>, s: int, a: Seq<char>, b: Seq<char>)
    requires
        0 <= s <= t.len(),
        rest(t, s) == a + b,
    ensures
        s + a.len() <= t.len(),
        text_of(t, s, s + a.len()) == a,
        rest(t, s + a.len()) == b,
        forall|j: int| 0 <= j < a.len() ==> (#[trigger] t[s + j]).ch == a[j],
{
    assert(rest(t, s).len() == a.len() + b.len());
    assert forall|j: int| 0 <= j < a.len() implies (#[trigger] t[s + j]).ch == a[j] by {
        assert(rest(t, s)[j] == a[j]);
    }
    assert forall|j: int| 0 <= j < b.len() implies (#[trigger] t[s + a.len() + j]).ch
        == b[j] by {
        assert(rest(t, s)[a.len() + j] == b[j]);
    }
}

/// A classified text is faithful and holds the characters it was made
/// from.
proof fn lemma_classified(r: Seq<char>)
    ensures
        faithful(classified(r)),
        classified(r).len() == r.len(),
        rest(classified(r), 0) == r,
{
}

/// In a body that is read to `body_end`, every opening brace opens a
/// group.
proof fn lemma_braces_close(t: Seq<Glyph>, p: int, j: int)
    requires
        0 <= p <= j < body_end(t, p),
        t[j].ch == '{',
    ensures
        group_end(t, j) is Some,
    decreases t.len() - p,
{
    if p < t.len() {
        if is_plain(t[p].ch) {
            lemma_braces_close(t, p + 1, j);
        } else {
            let e = group_end(t, p)->0;
            if p < j < e - 1 {
                lemma_braces_close(t, p + 1, j);
            } else if e <= j {
                lemma_braces_close(t, e, j);
            }
        }
    }
}

/// A body in which every opening brace opens a group is read alike on
/// its own and within a text where a closing brace follows it.
proof fn lemma_embed(c: Seq<Glyph>, pre: int, v: Seq<Glyph>, i: int)
    requires
        0 <= pre,
        pre + v.len() < c.len(),
        forall|j: int| 0 <= j < v.len() ==> (#[trigger] c[pre + j]).ch == v[j].ch,
        c[pre + v.len()].ch == '}',
        forall|j: int| 0 <= j < v.len() && (#[trigger] v[j]).ch == '{' ==> group_end(v, j) is Some,
        0 <= i <= v.len(),
    ensures
        body_end(c, pre + i) == pre + body_end(v, i),
        i < v.len() ==> (match group_end(v, i) {
            Some(e) => group_end(c, pre + i) == Some(pre + e),
            None => group_end(c, pre + i) is None,
        }),
    decreases v.len() - i,
{
    if i < v.len() {
        lemma_embed(c, pre, v, i + 1);
        lemma_body(v, i + 1);
        if let Some(e) = group_end(v, i) {
            lemma_embed(c, pre, v, e);
        }
    }
}

/// A body between braces is a value: where `v` stands in the text
/// behind an opening brace and before a closing one, the group at the
/// opening brace holds `v`.
proof fn lemma_value_in_braces(t: Seq<Glyph>, o: int, v: Seq<char>)
    requires
        at(t, o, '{'),
        o + 1 + v.len() < t.len(),
        text_of(t, o + 1, o + 1 + v.len()) == v,
        t[o + 1 + v.len()].ch == '}',
        is_body(v),
    ensures
        value_at(t, o) == Some((v, o + v.len() + 2)),
{
    let vg = classified(v);
    assert forall|j: int| 0 <= j < vg.len() && (#[trigger] vg[j]).ch == '{' implies group_end(
        vg,
        j,
    ) is Some by {
        lemma_braces_close(vg, 0, j);
    }
    lemma_embed(t, o + 1, vg, 0);
}

/// One line of a tag is read as its pair: from any place before the
/// line from which only blanks lead to it, the pair is the key and the
/// value of the line, and it ends at the comma behind the value.
proof fn lemma_line(
    t: Seq<Glyph>,
    q: int,
    s: int,
    kv: (Seq<char>, Seq<char>),
    after: Seq<char>,
)
    requires
        faithful(t),
        0 <= q <= s <= t.len(),
        forall|j: int| q <= j < s ==> is_space(#[trigger] t[j].ch),
        rest(t, s) == tag_line(kv) + after,
        is_word(kv.0),
        is_body(kv.1),
    ensures
        pair_at(t, q) == Step::Found(kv, s + kv.0.len() + kv.1.len() + 9),
        at(t, s + kv.0.len() + kv.1.len() + 9, ','),
        at(t, s + kv.0.len() + kv.1.len() + 10, '\n'),
        s + kv.0.len() + kv.1.len() + 11 <= t.len(),
        rest(t, s + kv.0.len() + kv.1.len() + 11) == after,
{
    let key = kv.0;
    let value = kv.1;
    let a1 = seq![' ', ' ', ' ', ' '];
    let a3 = seq![' ', '=', ' ', '{'];
    let a5 = seq!['}', ',', '\n'];
    let r4 = a5 + after;
    let r3 = value + r4;
    let r2 = a3 + r3;
    let r1 = key + r2;
    assert(tag_line(kv) + after =~= a1 + r1);
    lemma_peel(t, s, a1, r1);
    let k = s + 4;
    lemma_peel(t, k, key, r2);
    let ke = k + key.len();
    lemma_peel(t, ke, a3, r3);
    let vs = ke + 4;
    lemma_peel(t, vs, value, r4);
    let ve = vs + value.len();
    lemma_peel(t, ve, a5, after);
    assert(t[ke + 0].ch == ' ' && t[ke + 1].ch == '=' && t[ke + 2].ch == ' ' && t[ke + 3].ch
        == '{');
    assert forall|j: int| k <= j < ke implies of_kind(#[trigger] t[j], Kind::Letter) by {
        assert(t[k + (j - k)].ch == key[j - k]);
    }
    lemma_run_exact(t, q, k, Kind::Space);
    lemma_run_exact(t, k, ke, Kind::Letter);
    lemma_run_exact(t, ke, ke + 1, Kind::Space);
    lemma_run_exact(t, ke + 2, ke + 3, Kind::Space);
    lemma_value_in_braces(t, ke + 3, value);
}

/// The closing of an entry as text: a brace and an empty line.
spec fn closing() -> Seq<char> {
    seq!['}', '\n', '\n']
}

/// The lines of a list that is not empty are the line of its first pair
/// and the lines of the others.
proof fn lemma_lines_first(pairs: Pairs)
    requires
        pairs.len() > 0,
    ensures
        tag_lines(pairs) == tag_line(pairs.first()) + tag_lines(pairs.drop_first()),
    decreases pairs.len(),
{
    if pairs.len() == 1 {
        assert(pairs.drop_last() =~= Pairs::empty());
        assert(pairs.drop_first() =~= Pairs::empty());
    } else {
        let front = pairs.drop_last();
        lemma_lines_first(front);
        assert(front.drop_first() =~= pairs.drop_first().drop_last());
    }
}

/// The lines of the tags, with the closing behind them, are read as the
/// pairs they were written from. The list ends at the comma of its last
/// line, or where it was asked for if there is no line.
proof fn lemma_lines(t: Seq<Glyph>, q: int, s: int, pairs: Pairs)
    requires
        faithful(t),
        0 <= q <= s <= t.len(),
        forall|j: int| q <= j < s ==> is_space(#[trigger] t[j].ch),
        rest(t, s) == tag_lines(pairs) + closing(),
        forall|i: int|
            0 <= i < pairs.len() ==> is_word((#[trigger] pairs[i]).0) && is_body(pairs[i].1),
    ensures
        pairs_from(t, q) == Some(
            (
                pairs,
                if pairs.len() == 0 {
                    q
                } else {
                    t.len() - 5
                },
            ),
        ),
        at(t, t.len() - 3, '}'),
        at(t, t.len() - 2, '\n'),
        at(t, t.len() - 1, '\n'),
        pairs.len() == 0 ==> s == t.len() - 3,
        pairs.len() > 0 ==> at(t, t.len() - 5, ',') && at(t, t.len() - 4, '\n'),
    decreases pairs.len(),
{
    if pairs.len() == 0 {
        lemma_run_exact(t, q, s, Kind::Space);
    } else {
        let kv = pairs.first();
        let others = pairs.drop_first();
        lemma_lines_first(pairs);
        let after = tag_lines(others) + closing();
        assert(tag_lines(pairs) + closing() =~= tag_line(kv) + after);
        lemma_line(t, q, s, kv, after);
        let ve = s + kv.0.len() + kv.1.len() + 9;
        lemma_lines(t, ve + 1, ve + 2, others);
    }
}

/// The first line of an entry is read as its type and its label: the
/// opening brace stands at `o`, the comma behind the label at `c`.
proof fn lemma_head(
    t: Seq<Glyph>,
    entry_type: Seq<char>,
    o: int,
    label: Seq<char>,
    c: int,
    after: Seq<char>,
)
    requires
        faithful(t),
        o == 1 + entry_type.len(),
        c == o + 1 + label.len(),
        rest(t, 0) == seq!['@'] + (entry_type + (seq!['{'] + (label + (seq![',', '\n']
            + after)))),
        is_word(entry_type),
        is_label(label),
    ensures
        at(t, 0, '@'),
        skip(t, 0) == 0,
        skip(t, 1) == 1,
        type_end(t, 1) == o,
        at(t, o, '{'),
        skip(t, o) == o,
        label_start(t, 1) == o + 1,
        label_end(t, 1) == c,
        at(t, c, ','),
        tags_start(t, 1) == c + 1,
        at(t, c + 1, '\n'),
        text_of(t, 1, o) == entry_type,
        text_of(t, o + 1, c) == label,
        c + 2 <= t.len(),
        rest(t, c + 2) == after,
{
    let a0 = seq!['@'];
    let a2 = seq!['{'];
    let a4 = seq![',', '\n'];
    let r4 = a4 + after;
    let r3 = label + r4;
    let r2 = a2 + r3;
    let r1 = entry_type + r2;
    let b: int = 1;
    let l: int = o + 1;
    lemma_peel(t, 0, a0, r1);
    lemma_peel(t, 1, entry_type, r2);
    lemma_peel(t, o, a2, r3);
    lemma_peel(t, l, label, r4);
    lemma_peel(t, c, a4, after);
    assert(t[0int + 0].ch == '@');
    assert(t[o + 0].ch == '{');
    assert forall|j: int| 1 <= j < o implies of_kind(#[trigger] t[j], Kind::Letter) by {
        assert(t[b + (j - 1)].ch == entry_type[j - 1]);
    }
    assert forall|j: int| l <= j < c implies of_kind(#[trigger] t[j], Kind::Alnum) by {
        assert(t[l + (j - l)].ch == label[j - l]);
    }
    lemma_run_exact(t, 1, o, Kind::Letter);
    lemma_run_exact(t, l, c, Kind::Alnum);
}

/// A word that starts with none of the keywords is taken for none of
/// them behind `@`.
proof fn lemma_no_keyword(t: Seq<Glyph>, entry_type: Seq<char>, o: int)
    requires
        o == 1 + entry_type.len(),
        text_of(t, 1, o) == entry_type,
        at(t, o, '{'),
        !begins_with_keyword(entry_type),
    ensures
        !string_word(t, 0),
        !preamble_word(t, 0),
        !comment_word(t, 0),
{
    let w = entry_type;
    if string_word(t, 0) {
        assert(w.subrange(0, 6) =~= seq!['S', 'T', 'R', 'I', 'N', 'G']);
    }
    if preamble_word(t, 0) {
        assert(w.subrange(0, 8) =~= seq!['P', 'R', 'E', 'A', 'M', 'B', 'L', 'E']);
    }
    if comment_word(t, 0) {
        assert(w.subrange(0, 7) =~= seq!['C', 'O', 'M', 'M', 'E', 'N', 'T']);
    }
}

/// The closing of an entry is read behind its tags: from the comma of
/// the last line, or from the end of the first line where there is no
/// tag, the entry closes at the end of the text.
proof fn lemma_closing(t: Seq<Glyph>, e: int, some: bool)
    requires
        t.len() >= 5,
        at(t, t.len() - 3, '}'),
        at(t, t.len() - 2, '\n'),
        at(t, t.len() - 1, '\n'),
        some ==> e == t.len() - 5 && at(t, e, ',') && at(t, t.len() - 4, '\n'),
        !some ==> e == t.len() - 4 && at(t, e, '\n'),
    ensures
        close_at(t, e) == Some(t.len() as int),
{
    let n = t.len() as int;
    lemma_run_exact(t, n - 3, n - 3, Kind::Space);
    lemma_run_exact(t, n - 2, n, Kind::Space);
}

/// The text of an entry, taken apart from its start.
proof fn lemma_entry_text(entry_type: Seq<char>, label: Seq<char>, pairs: Pairs)
    ensures
        entry_text(entry_type, label, pairs) == seq!['@'] + (entry_type + (seq!['{'] + (label + (
            seq![',', '\n'] + (tag_lines(pairs) + closing()))))),
{
}

/// A text that is made of the parts of an entry is read as that
/// entry.
proof fn lemma_round_trip(
    t: Seq<Glyph>,
    entry_type: Seq<char>,
    label: Seq<char>,
    pairs: Pairs,
)
    requires
        writable(entry_type, label, pairs),
        faithful(t),
        rest(t, 0) == seq!['@'] + (entry_type + (seq!['{'] + (label + (seq![',', '\n'] + (
            tag_lines(pairs) + closing()))))),
    ensures
        item_at(t, 0) == Step::Found(
            RawItemView::Entry { entry_type, label, tags: pairs },
            t.len() as int,
        ),
{
    let after = tag_lines(pairs) + closing();
    let o: int = 1 + entry_type.len() as int;
    let c: int = o + 1 + label.len() as int;
    lemma_head(t, entry_type, o, label, c, after);
    lemma_no_keyword(t, entry_type, o);
    lemma_lines(t, c + 1, c + 2, pairs);
    let e = end_of(pairs_from(t, c + 1));
    lemma_closing(t, e, pairs.len() > 0);
}

/// Reading gives back what was written: the text of an entry, read from
/// its start, is the entry with the type, the label and the tags it was
/// written from, and it is read to its end. This holds of an entry that
/// is [`writable`]. What is kept of it has the type in upper case and
/// the keys in lower case.
pub proof fn law_round_trip(entry_type: Seq<char>, label: Seq<char>, pairs: Pairs)
    requires
        writable(entry_type, label, pairs),
    ensures
        item_at(classified(entry_text(entry_type, label, pairs)), 0) == Step::Found(
            RawItemView::Entry { entry_type, label, tags: pairs },
            entry_text(entry_type, label, pairs).len() as int,
        ),
        normal_step(item_at(classified(entry_text(entry_type, label, pairs)), 0)) == Step::Found(
            BibItemView::Entry {
                entry_type: uppercased(entry_type),
                label,
                tags: map_of(lower_keys(pairs)),
            },
            entry_text(entry_type, label, pairs).len() as int,
        ),
{
    let r = entry_text(entry_type, label, pairs);
    let t = classified(r);
    lemma_classified(r);
    lemma_entry_text(entry_type, label, pairs);
    lemma_round_trip(t, entry_type, label, pairs);
}

/// An entry as it is kept is read again as itself: where its type is
/// already in upper case, its keys are in lower case and no key stands
/// twice, what is kept of the text that was written from it is the same
/// type, the same label and the same tags in the same order.
pub proof fn law_round_trip_of_kept(entry_type: Seq<char>, label: Seq<char>, pairs: Pairs)
    requires
        writable(entry_type, label, pairs),
        uppercased(entry_type) == entry_type,
        forall|i: int| 0 <= i < pairs.len() ==> lowercased((#[trigger] pairs[i]).0) == pairs[i].0,
        distinct_keys(pairs),
    ensures
        normal_step(item_at(classified(entry_text(entry_type, label, pairs)), 0)) == Step::Found(
            BibItemView::Entry { entry_type, label, tags: map_of(pairs) },
            entry_text(entry_type, label, pairs).len() as int,
        ),
        kept_order(item_at(classified(entry_text(entry_type, label, pairs)), 0)->Found_0)
            == pairs,
{
    law_round_trip(entry_type, label, pairs);
    assert(lower_keys(pairs) =~= pairs);
    lemma_put_all_distinct(pairs);
}

} // verus!
