//! A text made ready for reading.
//!
//! A [`Source`] holds the glyphs of a text and, for every position, where
//! the body and the group that start there end. The two tables are filled
//! once, from the end of the text to its start, so that reading a value
//! later costs one look and never descends into the text again.

use vstd::prelude::*;
use crate::grammar::{
    at, body_end, glyph, group_end, lemma_body, of_kind, run_end, skip, text_of, Glyph, Kind,
};
use crate::unicode::{alphabetic, is_alpha};

verus! {

/// A classified text with its tables.
pub struct Source {
    glyphs: Vec<Glyph>,
    /// For each position, where the body that starts there ends.
    body: Vec<usize>,
    /// For each position, where the group that opens there ends, or zero
    /// where none does.
    close: Vec<usize>,
}

/// What the table of groups holds for a position.
pub open spec fn group_entry(t: Seq<Glyph>, p: int) -> int {
    match group_end(t, p) {
        Some(e) => e,
        None => 0,
    }
}

/// Whether a glyph belongs to a kind.
pub fn in_kind(g: Glyph, k: Kind) -> (b: bool)
    ensures
        b == of_kind(g, k),
{
    let c = g.ch;
    let space = c == ' ' || c == '\t' || c == '\r' || c == '\n';
    let digit = '0' <= c && c <= '9';
    let mark = c == '@' || c == '{' || c == '}' || c == '"' || c == ',' || c == '=';
    let letter = g.letter && !space && !digit && !mark;
    match k {
        Kind::Space => space,
        Kind::Letter => letter,
        Kind::Alnum => letter || digit,
        Kind::Plain => c != '"' && c != '{' && c != '}',
    }
}

/// The glyphs of a text, each character with what the Unicode tables say
/// of it.
pub open spec fn classified(s: Seq<char>) -> Seq<Glyph> {
    s.map_values(|c: char| glyph(c, alphabetic(c)))
}

impl View for Source {
    type V = Seq<Glyph>;

    closed spec fn view(&self) -> Seq<Glyph> {
        self.glyphs@
    }
}

impl Source {
    #[verifier::type_invariant]
    spec fn tables_hold(&self) -> bool {
        &&& self.body.len() == self.glyphs.len()
        &&& self.close.len() == self.glyphs.len()
        &&& forall|p: int|
            0 <= p < self.glyphs.len() ==> #[trigger] self.body[p] as int == body_end(
                self.glyphs@,
                p,
            )
        &&& forall|p: int|
            0 <= p < self.glyphs.len() ==> #[trigger] self.close[p] as int == group_entry(
                self.glyphs@,
                p,
            )
    }

    /// Makes a text ready whose glyphs are given.
    pub fn from_glyphs(glyphs: Vec<Glyph>) -> (s: Source)
        ensures
            s@ == glyphs@,
    {
        let n = glyphs.len();
        let mut body: Vec<usize> = Vec::new();
        let mut close: Vec<usize> = Vec::new();
        let mut i: usize = 0;
        while i < n
            invariant
                i <= n,
                body.len() == i,
                close.len() == i,
                forall|q: int| 0 <= q < i ==> #[trigger] close[q] == 0,
            decreases n - i,
        {
            body.push(0);
            close.push(0);
            i = i + 1;
        }
        let ghost t = glyphs@;
        let mut p: usize = n;
        while p > 0
            invariant
                p <= n,
                n == glyphs.len(),
                t == glyphs@,
                body.len() == n,
                close.len() == n,
                forall|q: int| p <= q < n ==> #[trigger] body[q] as int == body_end(t, q),
                forall|q: int| p <= q < n ==> #[trigger] close[q] as int == group_entry(t, q),
                forall|q: int| 0 <= q < p ==> #[trigger] close[q] == 0,
            decreases p,
        {
            p = p - 1;
            let c = glyphs[p].ch;
            let next = if p + 1 < n {
                body[p + 1]
            } else {
                n
            };
            proof {
                lemma_body(t, p as int);
            }
            if c == '{' || c == '"' {
                let want = if c == '{' {
                    '}'
                } else {
                    '"'
                };
                if next > p + 1 && next < n && glyphs[next].ch == want {
                    let e = next + 1;
                    let after = if e < n {
                        body[e]
                    } else {
                        n
                    };
                    assert(after as int == body_end(t, e as int));
                    close.set(p, e);
                    body.set(p, after);
                } else {
                    body.set(p, p);
                }
            } else if c == '}' {
                body.set(p, p);
            } else {
                body.set(p, next);
            }
        }
        Source { glyphs, body, close }
    }

    /// Classifies the characters of `text` and makes it ready.
    pub fn scan(text: &str) -> (s: Source)
        ensures
            s@ == classified(text@),
    {
        let chars = chars_of(text);
        let mut glyphs: Vec<Glyph> = Vec::new();
        let n = chars.len();
        let mut i: usize = 0;
        while i < n
            invariant
                i <= n,
                n == chars@.len(),
                chars@ == text@,
                glyphs@ == classified(chars@.take(i as int)),
            decreases n - i,
        {
            let c = chars[i];
            let letter = is_alpha(c);
            glyphs.push(Glyph::new(c, letter));
            assert(classified(chars@.take(i as int)).push(glyph(c, letter)) == classified(
                chars@.take(i + 1),
            ));
            i = i + 1;
        }
        Source::from_glyphs(glyphs)
    }

    /// The number of glyphs.
    pub fn len(&self) -> (n: usize)
        ensures
            n == self@.len(),
    {
        self.glyphs.len()
    }

    /// Whether the character `c` stands at `p`.
    pub fn sees(&self, p: usize, c: char) -> (b: bool)
        ensures
            b == at(self@, p as int, c),
            b ==> p < usize::MAX,
    {
        p < self.glyphs.len() && self.glyphs[p].ch == c
    }

    /// Whether a glyph of kind `k` stands at `p`.
    pub fn has(&self, p: usize, k: Kind) -> (b: bool)
        ensures
            b == (p < self@.len() && of_kind(self@[p as int], k)),
            b ==> p < usize::MAX,
    {
        p < self.glyphs.len() && in_kind(self.glyphs[p], k)
    }

    /// Where the longest run of kind `k` that starts at `p` ends.
    pub fn run(&self, p: usize, k: Kind) -> (e: usize)
        ensures
            e == run_end(self@, p as int, k),
            p <= e,
            p <= self@.len() ==> e <= self@.len(),
    {
        let n = self.glyphs.len();
        let mut e = p;
        while e < n && in_kind(self.glyphs[e], k)
            invariant
                n == self.glyphs.len(),
                p <= e,
                p <= n ==> e <= n,
                run_end(self.glyphs@, p as int, k) == run_end(self.glyphs@, e as int, k),
            decreases n - e,
        {
            e = e + 1;
        }
        e
    }

    /// Where the blanks that start at `p` end.
    pub fn skip(&self, p: usize) -> (e: usize)
        ensures
            e == skip(self@, p as int),
            p <= e,
            p <= self@.len() ==> e <= self@.len(),
    {
        self.run(p, Kind::Space)
    }

    /// Where the body that starts at `p` ends.
    pub fn body(&self, p: usize) -> (e: usize)
        ensures
            e == body_end(self@, p as int),
            p <= e,
            p <= self@.len() ==> e <= self@.len(),
    {
        proof {
            use_type_invariant(self);
            if p <= self@.len() {
                lemma_body(self@, p as int);
            }
        }
        if p < self.glyphs.len() {
            self.body[p]
        } else {
            p
        }
    }

    /// Where the group that opens at `p` ends, if one does.
    pub fn group(&self, p: usize) -> (r: Option<usize>)
        ensures
            match r {
                Some(e) => group_end(self@, p as int) == Some(e as int) && p + 3 <= e
                    <= self@.len(),
                None => group_end(self@, p as int) is None,
            },
    {
        proof {
            use_type_invariant(self);
        }
        if p < self.glyphs.len() {
            let e = self.close[p];
            if e == 0 {
                None
            } else {
                Some(e)
            }
        } else {
            None
        }
    }

    /// The characters from `from` up to `to`, as a string.
    pub(crate) fn text(&self, from: usize, to: usize) -> (s: String)
        requires
            from <= to <= self@.len(),
        ensures
            s@ == text_of(self@, from as int, to as int),
    {
        let mut s = String::new();
        let mut i = from;
        while i < to
            invariant
                from <= i <= to,
                to <= self.glyphs.len(),
                s@ == text_of(self.glyphs@, from as int, i as int),
            decreases to - i,
        {
            s.push(self.glyphs[i].ch);
            assert(text_of(self.glyphs@, from as int, i as int).push(self.glyphs@[i as int].ch)
                =~= text_of(self.glyphs@, from as int, i + 1));
            i = i + 1;
        }
        s
    }
}

/// The characters of a text, one by one.
pub fn chars_of(text: &str) -> (out: Vec<char>)
    ensures
        out@ == text@,
{
    let mut out: Vec<char> = Vec::new();
    for c in it: text.chars()
        invariant
            out@ == text@.take(it.index() as int),
            it.seq() == text@,
    {
        out.push(c);
    }
    out
}

} // verus!
