//! Reading the parts of the notation from a [`Source`].
//!
//! Every function takes the position at which to read and gives back
//! what it read together with the position behind it. None of them
//! asks anything of the position: behind the end of the text nothing is
//! found.

use vstd::prelude::*;
use crate::bibfile::{
    kept_order, normal, normal_all, views, BibError, BibFile, BibItem, BibItemView, RawItem,
};
use crate::grammar::{
    at, body_at, close_at, comment_word, entry_body, group_at, group_with, item_at, items_from,
    lemma_item_bounds, lemma_pair_bounds, macro_body, more_pairs, pair_at, pairs_from,
    preamble_word, prepend, run_at, string_word, value_at, Kind, Pairs, RawItemView, Step,
};
use crate::source::{classified, Source};
use crate::tags::{lower_keys, map_of, pairs_of, put_all, TagMap};

verus! {

/// A text that was read and the position behind it, as plain values.
pub open spec fn found(r: Option<(String, usize)>) -> Option<(Seq<char>, int)> {
    match r {
        Some((s, e)) => Some((s@, e as int)),
        None => None,
    }
}

/// What reading a pair gave, as plain values.
pub open spec fn pair_step(r: Result<Option<((String, String), usize)>, BibError>) -> Step<
    (Seq<char>, Seq<char>),
> {
    match r {
        Ok(Some((kv, e))) => Step::Found((kv.0@, kv.1@), e as int),
        Ok(None) => Step::Absent,
        Err(_) => Step::Broken,
    }
}

/// What reading a list of pairs gave, as plain values.
pub open spec fn pairs_found(r: Result<(Vec<(String, String)>, usize), BibError>) -> Option<
    (Pairs, int),
> {
    match r {
        Ok((pairs, e)) => Some((pairs_of(pairs@), e as int)),
        Err(_) => None,
    }
}

/// What reading a written item gave, as plain values.
pub open spec fn raw_step(r: Result<Option<(RawItem, usize)>, BibError>) -> Step<RawItemView> {
    match r {
        Ok(Some((item, e))) => Step::Found(item@, e as int),
        Ok(None) => Step::Absent,
        Err(_) => Step::Broken,
    }
}

/// What reading an item gave, as plain values.
pub open spec fn item_step(r: Result<Option<(BibItem, usize)>, BibError>) -> Step<BibItemView> {
    match r {
        Ok(Some((item, e))) => Step::Found(item@, e as int),
        Ok(None) => Step::Absent,
        Err(_) => Step::Broken,
    }
}

/// The order of the tags in each item of a list.
pub open spec fn orders(items: Seq<BibItem>) -> Seq<Pairs> {
    items.map_values(|i: BibItem| i.tag_order())
}

/// The order in which the tags of each written item are kept.
pub open spec fn kept_orders(raw: Seq<RawItemView>) -> Seq<Pairs> {
    raw.map_values(|r: RawItemView| kept_order(r))
}

/// A step with its item as it is kept.
pub open spec fn normal_step(s: Step<RawItemView>) -> Step<BibItemView> {
    match s {
        Step::Found(raw, e) => Step::Found(normal(raw), e),
        Step::Absent => Step::Absent,
        Step::Broken => Step::Broken,
    }
}

impl Source {
    /// The run of kind `k` at `pos`, if it is not empty.
    pub fn token(&self, pos: usize, k: Kind) -> (r: Option<(String, usize)>)
        ensures
            found(r) == run_at(self@, pos as int, k),
    {
        if pos > self.len() {
            return None;
        }
        let e = self.run(pos, k);
        if pos < e {
            Some((self.text(pos, e), e))
        } else {
            None
        }
    }

    /// The longest run of characters at `pos` that are none of `"`, `{`
    /// and `}`, if it is not empty.
    pub fn any_string(&self, pos: usize) -> (r: Option<(String, usize)>)
        ensures
            found(r) == run_at(self@, pos as int, Kind::Plain),
    {
        self.token(pos, Kind::Plain)
    }

    /// The body at `pos`, if it is not empty: plain characters and
    /// complete groups, as far as they go.
    pub fn string(&self, pos: usize) -> (r: Option<(String, usize)>)
        ensures
            found(r) == body_at(self@, pos as int),
    {
        if pos > self.len() {
            return None;
        }
        let e = self.body(pos);
        if pos < e {
            Some((self.text(pos, e), e))
        } else {
            None
        }
    }

    /// The group at `pos`, in braces or in quotes, without its
    /// delimiters.
    pub fn delimited_string(&self, pos: usize) -> (r: Option<(String, usize)>)
        ensures
            found(r) == group_at(self@, pos as int),
    {
        match self.group(pos) {
            Some(e) => Some((self.text(pos + 1, e - 1), e)),
            None => None,
        }
    }

    /// The group in braces at `pos`, without the braces.
    pub fn braced_string(&self, pos: usize) -> (r: Option<(String, usize)>)
        ensures
            found(r) == group_with(self@, pos as int, '{'),
    {
        if self.sees(pos, '{') {
            self.delimited_string(pos)
        } else {
            None
        }
    }

    /// The group in quotes at `pos`, without the quotes.
    pub fn quoted_string(&self, pos: usize) -> (r: Option<(String, usize)>)
        ensures
            found(r) == group_with(self@, pos as int, '"'),
    {
        if self.sees(pos, '"') {
            self.delimited_string(pos)
        } else {
            None
        }
    }

    /// The value at `pos`: a run of letters and digits, or a group
    /// without its delimiters.
    pub fn value(&self, pos: usize) -> (r: Option<(String, usize)>)
        ensures
            found(r) == value_at(self@, pos as int),
    {
        if self.has(pos, Kind::Alnum) {
            self.token(pos, Kind::Alnum)
        } else {
            self.delimited_string(pos)
        }
    }

    /// The pair `key = value` at `pos`, both as written. `Ok(None)` where
    /// no key stands there; an error where a key stands there and the
    /// rest of the pair does not follow.
    pub fn tag_pair(&self, pos: usize) -> (r: Result<Option<((String, String), usize)>, BibError>)
        ensures
            pair_step(r) == pair_at(self@, pos as int),
    {
        let k = self.skip(pos);
        if !self.has(k, Kind::Letter) {
            return Ok(None);
        }
        let ke = self.run(k, Kind::Letter);
        let q = self.skip(ke);
        if !self.sees(q, '=') {
            return Err(BibError);
        }
        match self.value(self.skip(q + 1)) {
            Some((value, ve)) => {
                let key = self.text(k, ke);
                Ok(Some(((key, value), self.skip(ve))))
            },
            None => Err(BibError),
        }
    }

    /// The pairs from `pos` on, separated by commas, as written and in
    /// the order of the text. An error where one of them is broken.
    pub fn tag_pairs(&self, pos: usize) -> (r: Result<(Vec<(String, String)>, usize), BibError>)
        ensures
            pairs_found(r) == pairs_from(self@, pos as int),
    {
        let ghost t = self@;
        let mut pairs: Vec<(String, String)> = Vec::new();
        let mut end: usize = pos;
        match self.tag_pair(pos) {
            Err(e) => {
                return Err(e);
            },
            Ok(None) => {
                return Ok((pairs, pos));
            },
            Ok(Some((kv, e))) => {
                pairs.push(kv);
                end = e;
            },
        }
        loop
            invariant
                t == self@,
                pairs_from(t, pos as int) == prepend(pairs_of(pairs@), more_pairs(t, end as int)),
            ensures
                pairs_from(t, pos as int) == Some((pairs_of(pairs@), end as int)),
            decreases t.len() - end,
        {
            if !self.sees(end, ',') {
                break ;
            }
            proof {
                lemma_pair_bounds(t, end + 1);
            }
            match self.tag_pair(end + 1) {
                Err(e) => {
                    return Err(e);
                },
                Ok(None) => {
                    break ;
                },
                Ok(Some((kv, e))) => {
                    pairs.push(kv);
                    end = e;
                },
            }
        }
        Ok((pairs, end))
    }

    /// The tags from `pos` on: the pairs, each key in lower case, put
    /// into a mapping in the order of the text.
    pub fn tag_list(&self, pos: usize) -> (r: Result<(TagMap, usize), BibError>)
        ensures
            match r {
                Ok((tags, e)) => pairs_from(self@, pos as int) matches Some((pairs, end))
                    && tags@ == map_of(lower_keys(pairs)) && tags.pairs() == put_all(
                    lower_keys(pairs),
                ) && e == end,
                Err(_) => pairs_from(self@, pos as int) is None,
            },
    {
        match self.tag_pairs(pos) {
            Ok((pairs, e)) => Ok((crate::bibfile::fold_tags(&pairs), e)),
            Err(e) => Err(e),
        }
    }

    /// Whether `@STRING` stands at `a`.
    fn string_word(&self, a: usize) -> (b: bool)
        ensures
            b == string_word(self@, a as int),
    {
        self.sees(a, '@') && self.sees(a + 1, 'S') && self.sees(a + 2, 'T') && self.sees(
            a + 3,
            'R',
        ) && self.sees(a + 4, 'I') && self.sees(a + 5, 'N') && self.sees(a + 6, 'G')
    }

    /// Whether `@PREAMBLE` stands at `a`.
    fn preamble_word(&self, a: usize) -> (b: bool)
        ensures
            b == preamble_word(self@, a as int),
    {
        self.sees(a, '@') && self.sees(a + 1, 'P') && self.sees(a + 2, 'R') && self.sees(
            a + 3,
            'E',
        ) && self.sees(a + 4, 'A') && self.sees(a + 5, 'M') && self.sees(a + 6, 'B')
            && self.sees(a + 7, 'L') && self.sees(a + 8, 'E')
    }

    /// Whether `@COMMENT` stands at `a`.
    fn comment_word(&self, a: usize) -> (b: bool)
        ensures
            b == comment_word(self@, a as int),
    {
        self.sees(a, '@') && self.sees(a + 1, 'C') && self.sees(a + 2, 'O') && self.sees(
            a + 3,
            'M',
        ) && self.sees(a + 4, 'M') && self.sees(a + 5, 'E') && self.sees(a + 6, 'N')
            && self.sees(a + 7, 'T')
    }

    /// The close of a list of tags that ends at `pos`: one comma or none,
    /// then a closing brace.
    fn close(&self, pos: usize) -> (r: Option<usize>)
        ensures
            match r {
                Some(end) => close_at(self@, pos as int) == Some(end as int),
                None => close_at(self@, pos as int) is None,
            },
    {
        let x = self.skip(pos);
        let y = if self.sees(x, ',') {
            self.skip(x + 1)
        } else {
            x
        };
        if self.sees(y, '}') {
            Some(self.skip(y + 1))
        } else {
            None
        }
    }

    /// The body of a string macro whose keyword ends before `pos`.
    fn macro_body(&self, pos: usize) -> (r: Result<Option<(RawItem, usize)>, BibError>)
        requires
            pos <= self@.len(),
        ensures
            raw_step(r) == macro_body(self@, pos as int),
    {
        let o = self.skip(pos);
        if !self.sees(o, '{') {
            return Err(BibError);
        }
        match self.tag_pairs(o + 1) {
            Ok((tags, e)) => match self.close(e) {
                Some(end) => Ok(Some((RawItem::String(tags), end))),
                None => Err(BibError),
            },
            Err(e) => Err(e),
        }
    }

    /// The rest of an entry whose `@` stands before `pos`.
    fn entry_body(&self, pos: usize) -> (r: Result<Option<(RawItem, usize)>, BibError>)
        requires
            pos <= self@.len(),
        ensures
            raw_step(r) == entry_body(self@, pos as int),
    {
        let w = self.skip(pos);
        let we = self.run(w, Kind::Letter);
        let o = self.skip(we);
        if !(w < we && self.sees(o, '{')) {
            return Ok(None);
        }
        let l = self.skip(o + 1);
        let le = self.run(l, Kind::Alnum);
        let c = self.skip(le);
        if !(l < le && self.sees(c, ',')) {
            return Err(BibError);
        }
        match self.tag_pairs(c + 1) {
            Ok((tags, e)) => match self.close(e) {
                Some(end) => {
                    let entry_type = self.text(w, we);
                    let label = self.text(l, le);
                    Ok(Some((RawItem::Entry { entry_type, label, tags }, end)))
                },
                None => Err(BibError),
            },
            Err(e) => Err(e),
        }
    }

    /// The item at `pos`, as written. `Ok(None)` where no item stands
    /// there; an error where one begins there and does not go on as it
    /// must.
    pub fn raw_item(&self, pos: usize) -> (r: Result<Option<(RawItem, usize)>, BibError>)
        ensures
            raw_step(r) == item_at(self@, pos as int),
    {
        let a = self.skip(pos);
        if a >= self.len() {
            return Ok(None);
        }
        if self.string_word(a) {
            self.macro_body(a + 7)
        } else if self.preamble_word(a) {
            Ok(Some((RawItem::Preamble, self.skip(a + 9))))
        } else if self.comment_word(a) {
            Ok(Some((RawItem::Comment, self.skip(a + 8))))
        } else if self.sees(a, '@') {
            self.entry_body(a + 1)
        } else {
            Ok(None)
        }
    }

    /// The item at `pos`, as it is kept.
    pub fn bib_entry(&self, pos: usize) -> (r: Result<Option<(BibItem, usize)>, BibError>)
        ensures
            item_step(r) == normal_step(item_at(self@, pos as int)),
            r matches Ok(Some((item, _))) ==> item.tag_order() == kept_order(
                item_at(self@, pos as int)->Found_0,
            ),
    {
        match self.raw_item(pos) {
            Ok(Some((raw, e))) => Ok(Some((BibItem::from_raw(raw), e))),
            Ok(None) => Ok(None),
            Err(e) => Err(e),
        }
    }

    /// The items of the whole text, in its order. Reading ends without
    /// complaint where no item stands, and what follows there is left
    /// unread. One broken item is an error, and nothing is given back.
    pub fn bibfile(&self) -> (r: Result<BibFile, BibError>)
        ensures
            match r {
                Ok(items) => items_from(self@, 0) matches Some(raw) && views(items@)
                    == normal_all(raw) && orders(items@) == kept_orders(raw),
                Err(_) => items_from(self@, 0) is None,
            },
    {
        let ghost t = self@;
        let mut items: Vec<BibItem> = Vec::new();
        let mut pos: usize = 0;
        let ghost mut done: Seq<RawItemView> = Seq::empty();
        loop
            invariant
                t == self@,
                pos <= t.len(),
                views(items@) == normal_all(done),
                orders(items@) == kept_orders(done),
                items_from(t, 0) == (match items_from(t, pos as int) {
                    Some(rest) => Some(done + rest),
                    None => None,
                }),
            ensures
                items_from(t, 0) == Some(done),
                views(items@) == normal_all(done),
                orders(items@) == kept_orders(done),
            decreases t.len() - pos,
        {
            proof {
                lemma_item_bounds(t, pos as int);
            }
            match self.bib_entry(pos) {
                Err(e) => {
                    return Err(e);
                },
                Ok(None) => {
                    break ;
                },
                Ok(Some((item, e))) => {
                    proof {
                        let raw = item_at(t, pos as int)->Found_0;
                        let one = seq![raw];
                        assert(views(items@.push(item)) =~= views(items@).push(item@));
                        assert(orders(items@.push(item)) =~= orders(items@).push(
                            item.tag_order(),
                        ));
                        assert(kept_orders(done + one) =~= kept_orders(done).push(
                            kept_order(raw),
                        ));
                        done = done + one;
                    }
                    items.push(item);
                    pos = e;
                },
            }
        }
        Ok(items)
    }
}

/// The items of a text, in its order: see [`Source::bibfile`].
pub fn bibfile(text: &str) -> (r: Result<BibFile, BibError>)
    ensures
        match r {
            Ok(items) => items_from(classified(text@), 0) matches Some(raw) && views(items@)
                == normal_all(raw) && orders(items@) == kept_orders(raw),
            Err(_) => items_from(classified(text@), 0) is None,
        },
{
    Source::scan(text).bibfile()
}

} // verus!
