//! The notation, stated over classified text.
//!
//! A text is a sequence of glyphs: characters, each with the answer to
//! the one question that needs the Unicode tables. Positions are indices
//! into that sequence. Every function here is total: at a position
//! outside the text nothing is found.

use vstd::prelude::*;

verus! {

/// A character of the text, and whether the Unicode tables call it
/// alphabetic.
#[derive(Clone, Copy, Debug, PartialEq, Eq)]
pub struct Glyph {
    pub ch: char,
    pub letter: bool,
}

/// The glyph of a character and its class.
pub open spec fn glyph(ch: char, letter: bool) -> Glyph {
    Glyph { ch, letter }
}

impl Glyph {
    /// A character with its class.
    pub fn new(ch: char, letter: bool) -> (g: Glyph)
        ensures
            g == glyph(ch, letter),
    {
        Glyph { ch, letter }
    }
}

/// Blanks between the tokens: space, tab, carriage return, line feed.
pub open spec fn is_space(c: char) -> bool {
    c == ' ' || c == '\t' || c == '\r' || c == '\n'
}

/// The ten decimal digits.
pub open spec fn is_digit(c: char) -> bool {
    '0' <= c && c <= '9'
}

/// The characters that the notation itself gives a meaning.
pub open spec fn is_mark(c: char) -> bool {
    c == '@' || c == '{' || c == '}' || c == '"' || c == ',' || c == '='
}

/// A glyph counts as a letter where the tables say so; blanks, digits
/// and the marks of the notation never do. (The tables call none of
/// these alphabetic. Saying so here spares every proof an assumption
/// about the tables.)
pub open spec fn is_letter(g: Glyph) -> bool {
    g.letter && !is_space(g.ch) && !is_digit(g.ch) && !is_mark(g.ch)
}

/// A letter or a digit.
pub open spec fn is_alnum(g: Glyph) -> bool {
    is_letter(g) || is_digit(g.ch)
}

/// Any character but the three delimiters of a value.
pub open spec fn is_plain(c: char) -> bool {
    c != '"' && c != '{' && c != '}'
}

/// The kinds of character that form runs.
#[derive(Clone, Copy, Debug, PartialEq, Eq)]
pub enum Kind {
    Space,
    Letter,
    Alnum,
    Plain,
}

/// Whether a glyph belongs to a kind.
pub open spec fn of_kind(g: Glyph, k: Kind) -> bool {
    match k {
        Kind::Space => is_space(g.ch),
        Kind::Letter => is_letter(g),
        Kind::Alnum => is_alnum(g),
        Kind::Plain => is_plain(g.ch),
    }
}

/// Where the longest run of glyphs of kind `k` that starts at `p` ends.
/// It is `p` itself where no such glyph stands at `p`.
pub open spec fn run_end(t: Seq<Glyph>, p: int, k: Kind) -> int
    decreases t.len() - p,
{
    if 0 <= p < t.len() && of_kind(t[p], k) {
        run_end(t, p + 1, k)
    } else {
        p
    }
}

/// Where the blanks that start at `p` end.
pub open spec fn skip(t: Seq<Glyph>, p: int) -> int {
    run_end(t, p, Kind::Space)
}

/// Whether the character `c` stands at `p`.
pub open spec fn at(t: Seq<Glyph>, p: int, c: char) -> bool {
    0 <= p < t.len() && t[p].ch == c
}

/// The characters from `from` up to `to`.
pub open spec fn text_of(t: Seq<Glyph>, from: int, to: int) -> Seq<char> {
    Seq::new((to - from) as nat, |i: int| t[from + i].ch)
}

/// The delimiter that closes what `c` opens.
pub open spec fn closer(c: char) -> char {
    if c == '{' {
        '}'
    } else {
        '"'
    }
}

/// Where the body that starts at `p` ends: the longest stretch made of
/// plain characters and of complete groups. It is `p` where neither
/// stands at `p`. (A group always ends behind the place where it opens;
/// the test on its end is there for the definition to be well founded.)
pub open spec fn body_end(t: Seq<Glyph>, p: int) -> int
    decreases t.len() - p, 1int,
{
    if p < 0 || p >= t.len() {
        p
    } else if is_plain(t[p].ch) {
        body_end(t, p + 1)
    } else {
        match group_end(t, p) {
            Some(e) => if p < e <= t.len() {
                body_end(t, e)
            } else {
                p
            },
            None => p,
        }
    }
}

/// Where the group that opens at `p` ends, if one does: an opening
/// delimiter, a body that is not empty, and the closing delimiter that
/// matches. A body takes in every group it can, so a quote closes its
/// group only where no group opens at it.
pub open spec fn group_end(t: Seq<Glyph>, p: int) -> Option<int>
    decreases t.len() - p, 0int,
{
    if 0 <= p < t.len() && (t[p].ch == '{' || t[p].ch == '"') {
        let b = body_end(t, p + 1);
        if p + 1 < b && at(t, b, closer(t[p].ch)) {
            Some(b + 1)
        } else {
            None
        }
    } else {
        None
    }
}

/// The run of kind `k` at `p`, if it is not empty, with the position
/// behind it.
pub open spec fn run_at(t: Seq<Glyph>, p: int, k: Kind) -> Option<(Seq<char>, int)> {
    let e = run_end(t, p, k);
    if p < e {
        Some((text_of(t, p, e), e))
    } else {
        None
    }
}

/// The body at `p`, if it is not empty, with the position behind it.
pub open spec fn body_at(t: Seq<Glyph>, p: int) -> Option<(Seq<char>, int)> {
    let e = body_end(t, p);
    if p < e {
        Some((text_of(t, p, e), e))
    } else {
        None
    }
}

/// What stands between the delimiters of the group at `p`, with the
/// position behind the group.
pub open spec fn group_at(t: Seq<Glyph>, p: int) -> Option<(Seq<char>, int)> {
    match group_end(t, p) {
        Some(e) => Some((text_of(t, p + 1, e - 1), e)),
        None => None,
    }
}

/// The group at `p` if it opens with `open`.
pub open spec fn group_with(t: Seq<Glyph>, p: int, open: char) -> Option<(Seq<char>, int)> {
    if at(t, p, open) {
        group_at(t, p)
    } else {
        None
    }
}

/// The value that starts at `p`, with the position behind it: a run of
/// letters and digits, taken as it stands, or a group, taken without its
/// two delimiters.
pub open spec fn value_at(t: Seq<Glyph>, p: int) -> Option<(Seq<char>, int)> {
    if 0 <= p < t.len() && is_alnum(t[p]) {
        run_at(t, p, Kind::Alnum)
    } else {
        group_at(t, p)
    }
}

/// The position behind what was read, or zero where nothing was.
pub open spec fn end_of<A>(r: Option<(A, int)>) -> int {
    match r {
        Some((_, e)) => e,
        None => 0,
    }
}

/// What reading at a position gave: something, with the position behind
/// it; nothing, because what stands there is of another kind; or a failure,
/// because what stands there began well and did not go on as it must.
pub enum Step<T> {
    Found(T, int),
    Absent,
    Broken,
}

/// Keys and values, as written, in the order of the text.
pub type Pairs = Seq<(Seq<char>, Seq<char>)>;

/// Where the key of the pair at `p` ends: behind the letters that
/// follow the leading blanks.
pub open spec fn key_end(t: Seq<Glyph>, p: int) -> int {
    run_end(t, skip(t, p), Kind::Letter)
}

/// Where the value of the pair at `p` must begin: behind the key, the
/// `=` and the blanks around it.
pub open spec fn value_start(t: Seq<Glyph>, p: int) -> int {
    skip(t, skip(t, key_end(t, p)) + 1)
}

/// The pair `key = value` at `p`, blanks allowed before, between and
/// behind its tokens. A letter after the leading blanks begins a pair;
/// from there on the `=` and the value must follow.
pub open spec fn pair_at(t: Seq<Glyph>, p: int) -> Step<(Seq<char>, Seq<char>)> {
    let k = skip(t, p);
    if 0 <= k < t.len() && is_letter(t[k]) {
        if at(t, skip(t, key_end(t, p)), '=') {
            match value_at(t, value_start(t, p)) {
                Some((v, ve)) => Step::Found((text_of(t, k, key_end(t, p)), v), skip(t, ve)),
                None => Step::Broken,
            }
        } else {
            Step::Broken
        }
    } else {
        Step::Absent
    }
}

/// The pairs from `p` on, separated by commas, with the position behind
/// the last of them; `None` where one of them is broken. Where no pair
/// begins at `p` the list is empty and ends at `p`.
pub open spec fn pairs_from(t: Seq<Glyph>, p: int) -> Option<(Pairs, int)>
    decreases t.len() - p, 1int,
    via pairs_from_decreases
{
    match pair_at(t, p) {
        Step::Absent => Some((Seq::empty(), p)),
        Step::Broken => None,
        Step::Found(kv, e) => prepend(seq![kv], more_pairs(t, e)),
    }
}

/// The pairs that follow a pair which ends at `e`: those behind a comma,
/// if a pair begins there. A comma that no pair follows does not belong
/// to the list, which then ends at `e`.
pub open spec fn more_pairs(t: Seq<Glyph>, e: int) -> Option<(Pairs, int)>
    decreases t.len() - e, 0int,
{
    if at(t, e, ',') && !(pair_at(t, e + 1) is Absent) {
        pairs_from(t, e + 1)
    } else {
        Some((Seq::empty(), e))
    }
}

/// A list with some pairs put before it.
pub open spec fn prepend(first: Pairs, rest: Option<(Pairs, int)>) -> Option<(Pairs, int)> {
    match rest {
        Some((pairs, end)) => Some((first + pairs, end)),
        None => None,
    }
}

#[via_fn]
proof fn pairs_from_decreases(t: Seq<Glyph>, p: int) {
    if let Step::Found(kv, e) = pair_at(t, p) {
        lemma_pair_bounds(t, p);
    }
}

/// An item as it is written, before its words are put into upper or
/// lower case.
pub enum RawItemView {
    String(Pairs),
    Preamble,
    Comment,
    Entry { entry_type: Seq<char>, label: Seq<char>, tags: Pairs },
}

/// Whether `@STRING` stands at `p`.
pub open spec fn string_word(t: Seq<Glyph>, p: int) -> bool {
    at(t, p, '@') && at(t, p + 1, 'S') && at(t, p + 2, 'T') && at(t, p + 3, 'R') && at(
        t,
        p + 4,
        'I',
    ) && at(t, p + 5, 'N') && at(t, p + 6, 'G')
}

/// Whether `@PREAMBLE` stands at `p`.
pub open spec fn preamble_word(t: Seq<Glyph>, p: int) -> bool {
    at(t, p, '@') && at(t, p + 1, 'P') && at(t, p + 2, 'R') && at(t, p + 3, 'E') && at(
        t,
        p + 4,
        'A',
    ) && at(t, p + 5, 'M') && at(t, p + 6, 'B') && at(t, p + 7, 'L') && at(t, p + 8, 'E')
}

/// Whether `@COMMENT` stands at `p`.
pub open spec fn comment_word(t: Seq<Glyph>, p: int) -> bool {
    at(t, p, '@') && at(t, p + 1, 'C') && at(t, p + 2, 'O') && at(t, p + 3, 'M') && at(
        t,
        p + 4,
        'M',
    ) && at(t, p + 5, 'E') && at(t, p + 6, 'N') && at(t, p + 7, 'T')
}

/// The close of a list of tags: one comma or none, then a closing
/// brace, with blanks allowed before each. The result is the position
/// behind the brace and the blanks that follow.
pub open spec fn close_at(t: Seq<Glyph>, p: int) -> Option<int> {
    let x = skip(t, p);
    let y = if at(t, x, ',') {
        skip(t, x + 1)
    } else {
        x
    };
    if at(t, y, '}') {
        Some(skip(t, y + 1))
    } else {
        None
    }
}

/// The string macro whose keyword ends before `p`: an opening brace, the
/// pairs, and the close. With the keyword read, all of it must follow.
pub open spec fn macro_body(t: Seq<Glyph>, p: int) -> Step<RawItemView> {
    let o = skip(t, p);
    if at(t, o, '{') {
        match pairs_from(t, o + 1) {
            Some((tags, e)) => match close_at(t, e) {
                Some(end) => Step::Found(RawItemView::String(tags), end),
                None => Step::Broken,
            },
            None => Step::Broken,
        }
    } else {
        Step::Broken
    }
}

/// Where the word for an entry's type ends, the `@` standing before
/// `p`.
pub open spec fn type_end(t: Seq<Glyph>, p: int) -> int {
    run_end(t, skip(t, p), Kind::Letter)
}

/// Where the label of an entry must begin: behind the type, the opening
/// brace and the blanks around it.
pub open spec fn label_start(t: Seq<Glyph>, p: int) -> int {
    skip(t, skip(t, type_end(t, p)) + 1)
}

/// Where the label of an entry ends.
pub open spec fn label_end(t: Seq<Glyph>, p: int) -> int {
    run_end(t, label_start(t, p), Kind::Alnum)
}

/// Where the tags of an entry are read from: behind the comma that
/// follows the label.
pub open spec fn tags_start(t: Seq<Glyph>, p: int) -> int {
    skip(t, label_end(t, p)) + 1
}

/// The entry whose `@` stands before `p`: a word for the type, an opening
/// brace, a label of letters and digits, a comma, the pairs, and the
/// close. Up to the opening brace the text may still be something else;
/// behind it the rest must follow.
pub open spec fn entry_body(t: Seq<Glyph>, p: int) -> Step<RawItemView> {
    if skip(t, p) < type_end(t, p) && at(t, skip(t, type_end(t, p)), '{') {
        if label_start(t, p) < label_end(t, p) && at(t, tags_start(t, p) - 1, ',') {
            match pairs_from(t, tags_start(t, p)) {
                Some((tags, e)) => match close_at(t, e) {
                    Some(end) => Step::Found(
                        RawItemView::Entry {
                            entry_type: text_of(t, skip(t, p), type_end(t, p)),
                            label: text_of(t, label_start(t, p), label_end(t, p)),
                            tags,
                        },
                        end,
                    ),
                    None => Step::Broken,
                },
                None => Step::Broken,
            }
        } else {
            Step::Broken
        }
    } else {
        Step::Absent
    }
}

/// The item at `p`, after blanks. The four forms are tried in this order
/// and the first whose beginning stands there decides: `@STRING`,
/// `@PREAMBLE`, `@COMMENT`, then `@` with any other word. Of a preamble
/// or a comment only the keyword is read.
pub open spec fn item_at(t: Seq<Glyph>, p: int) -> Step<RawItemView> {
    let a = skip(t, p);
    if string_word(t, a) {
        macro_body(t, a + 7)
    } else if preamble_word(t, a) {
        Step::Found(RawItemView::Preamble, skip(t, a + 9))
    } else if comment_word(t, a) {
        Step::Found(RawItemView::Comment, skip(t, a + 8))
    } else if at(t, a, '@') {
        entry_body(t, a + 1)
    } else {
        Step::Absent
    }
}

/// The items from `p` on, in the order of the text. Reading stops
/// without complaint where no item stands, be it at the end of the text
/// or before something else. One broken item makes the whole `None`.
pub open spec fn items_from(t: Seq<Glyph>, p: int) -> Option<Seq<RawItemView>>
    decreases t.len() - p,
    via items_from_decreases
{
    match item_at(t, p) {
        Step::Absent => Some(Seq::empty()),
        Step::Broken => None,
        Step::Found(item, e) => match items_from(t, e) {
            Some(rest) => Some(seq![item] + rest),
            None => None,
        },
    }
}

#[via_fn]
proof fn items_from_decreases(t: Seq<Glyph>, p: int) {
    if let Step::Found(item, e) = item_at(t, p) {
        lemma_item_bounds(t, p);
    }
}

/// A run starts where it is asked for, ends within the text, holds only
/// glyphs of its kind and is not followed by one.
pub proof fn lemma_run(t: Seq<Glyph>, p: int, k: Kind)
    requires
        0 <= p <= t.len(),
    ensures
        p <= run_end(t, p, k) <= t.len(),
        forall|i: int| p <= i < run_end(t, p, k) ==> of_kind(#[trigger] t[i], k),
        run_end(t, p, k) < t.len() ==> !of_kind(t[run_end(t, p, k)], k),
    decreases t.len() - p,
{
    if p < t.len() && of_kind(t[p], k) {
        lemma_run(t, p + 1, k);
    }
}

/// A body and a group end within the text, and a group spans at least
/// its two delimiters and one character between them.
pub proof fn lemma_body(t: Seq<Glyph>, p: int)
    requires
        0 <= p <= t.len(),
    ensures
        p <= body_end(t, p) <= t.len(),
        group_end(t, p) matches Some(e) ==> p + 3 <= e <= t.len(),
    decreases t.len() - p,
{
    if p < t.len() {
        lemma_body(t, p + 1);
        if !is_plain(t[p].ch) {
            if let Some(e) = group_end(t, p) {
                lemma_body(t, e);
            }
        }
    }
}

/// A value that is found is not empty and ends within the text.
pub proof fn lemma_value_bounds(t: Seq<Glyph>, p: int)
    requires
        0 <= p <= t.len(),
    ensures
        value_at(t, p) matches Some((v, e)) ==> p < e <= t.len(),
{
    lemma_run(t, p, Kind::Alnum);
}

/// A pair that is found ends behind where it was asked for, within the
/// text.
pub proof fn lemma_pair_bounds(t: Seq<Glyph>, p: int)
    ensures
        pair_at(t, p) matches Step::Found(kv, e) ==> 0 <= p < e <= t.len(),
{
    if !(0 <= p <= t.len()) {
        return ;
    }
    lemma_run(t, p, Kind::Space);
    let k = skip(t, p);
    lemma_run(t, k, Kind::Letter);
    let ke = run_end(t, k, Kind::Letter);
    lemma_run(t, ke, Kind::Space);
    let q = skip(t, ke);
    if at(t, q, '=') {
        lemma_run(t, q + 1, Kind::Space);
        lemma_value_bounds(t, skip(t, q + 1));
        if let Some((v, ve)) = value_at(t, skip(t, q + 1)) {
            lemma_run(t, ve, Kind::Space);
        }
    }
}

/// A list of pairs ends within the text, not before where it was asked
/// for.
pub proof fn lemma_pairs_bounds(t: Seq<Glyph>, p: int)
    requires
        0 <= p <= t.len(),
    ensures
        pairs_from(t, p) matches Some((pairs, e)) ==> p <= e <= t.len(),
    decreases t.len() - p,
{
    lemma_pair_bounds(t, p);
    if let Step::Found(kv, e) = pair_at(t, p) {
        if at(t, e, ',') && !(pair_at(t, e + 1) is Absent) {
            lemma_pairs_bounds(t, e + 1);
        }
    }
}

/// A close that is found ends behind where it was asked for, within the
/// text.
pub proof fn lemma_close_bounds(t: Seq<Glyph>, p: int)
    requires
        0 <= p <= t.len(),
    ensures
        close_at(t, p) matches Some(e) ==> p < e <= t.len(),
{
    lemma_run(t, p, Kind::Space);
    let x = skip(t, p);
    if at(t, x, ',') {
        lemma_run(t, x + 1, Kind::Space);
    }
    let y = if at(t, x, ',') {
        skip(t, x + 1)
    } else {
        x
    };
    if at(t, y, '}') {
        lemma_run(t, y + 1, Kind::Space);
    }
}

/// An item that is found ends behind where it was asked for, within the
/// text.
pub proof fn lemma_item_bounds(t: Seq<Glyph>, p: int)
    ensures
        item_at(t, p) matches Step::Found(item, e) ==> 0 <= p < e <= t.len(),
{
    if !(0 <= p <= t.len()) {
        return ;
    }
    lemma_run(t, p, Kind::Space);
    let a = skip(t, p);
    if string_word(t, a) {
        lemma_run(t, a + 7, Kind::Space);
        let o = skip(t, a + 7);
        if at(t, o, '{') {
            lemma_pairs_bounds(t, o + 1);
            if let Some((tags, e)) = pairs_from(t, o + 1) {
                lemma_close_bounds(t, e);
            }
        }
    } else if preamble_word(t, a) {
        lemma_run(t, a + 9, Kind::Space);
    } else if comment_word(t, a) {
        lemma_run(t, a + 8, Kind::Space);
    } else if at(t, a, '@') {
        lemma_run(t, a + 1, Kind::Space);
        let w = skip(t, a + 1);
        lemma_run(t, w, Kind::Letter);
        let we = run_end(t, w, Kind::Letter);
        lemma_run(t, we, Kind::Space);
        let o = skip(t, we);
        if w < we && at(t, o, '{') {
            lemma_run(t, o + 1, Kind::Space);
            let l = skip(t, o + 1);
            lemma_run(t, l, Kind::Alnum);
            let le = run_end(t, l, Kind::Alnum);
            lemma_run(t, le, Kind::Space);
            let c = skip(t, le);
            if l < le && at(t, c, ',') {
                lemma_pairs_bounds(t, c + 1);
                if let Some((tags, e)) = pairs_from(t, c + 1) {
                    lemma_close_bounds(t, e);
                }
            }
        }
    }
}

} // verus!
