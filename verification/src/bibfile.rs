//! The items of a document, and the document read from a text.

use vstd::prelude::*;
use vstd::string::StringExecFns;
use crate::grammar::{Pairs, RawItemView};
use crate::tags::{distinct_keys, lower_keys, map_of, pairs_of, put_all, TagMap};
use crate::unicode::{to_lower, to_upper, uppercased};

verus! {

/// A document: its items in the order of the text.
pub type BibFile = Vec<BibItem>;

/// The one failure of reading: the text is not what the notation asks
/// for. It says neither where nor why.
#[derive(Debug, PartialEq, Eq)]
pub struct BibError;

/// What the failure says of itself.
pub open spec fn error_text() -> Seq<char> {
    "An error occurred whilst parsing the file."@
}

impl BibError {
    /// The failure in words.
    pub fn description(&self) -> (s: &'static str)
        ensures
            s@ == error_text(),
    {
        "An error occurred whilst parsing the file."
    }

    /// The failure in words, as a string of its own.
    pub fn to_string(&self) -> (s: String)
        ensures
            s@ == error_text(),
    {
        self.description().to_owned()
    }
}

/// An item as it is written: its words not yet put into upper or lower
/// case, its tags in the order of the text, repeated keys and all.
#[derive(Debug)]
pub enum RawItem {
    String(Vec<(String, String)>),
    Preamble,
    Comment,
    Entry { entry_type: String, label: String, tags: Vec<(String, String)> },
}

impl View for RawItem {
    type V = RawItemView;

    open spec fn view(&self) -> RawItemView {
        match self {
            RawItem::String(tags) => RawItemView::String(pairs_of(tags@)),
            RawItem::Preamble => RawItemView::Preamble,
            RawItem::Comment => RawItemView::Comment,
            RawItem::Entry { entry_type, label, tags } => RawItemView::Entry {
                entry_type: entry_type@,
                label: label@,
                tags: pairs_of(tags@),
            },
        }
    }
}

/// An item of a document.
#[derive(Debug)]
pub enum BibItem {
    /// A string macro: its tags.
    String(TagMap),
    /// A preamble. Nothing of it is kept.
    Preamble,
    /// A comment. Nothing of it is kept.
    Comment,
    /// An entry: its type in upper case, its label, and its tags under
    /// keys in lower case.
    Entry { entry_type: String, label: String, tags: TagMap },
}

/// An item as plain values.
pub enum BibItemView {
    String(Map<Seq<char>, Seq<char>>),
    Preamble,
    Comment,
    Entry { entry_type: Seq<char>, label: Seq<char>, tags: Map<Seq<char>, Seq<char>> },
}

impl View for BibItem {
    type V = BibItemView;

    open spec fn view(&self) -> BibItemView {
        match self {
            BibItem::String(tags) => BibItemView::String(tags@),
            BibItem::Preamble => BibItemView::Preamble,
            BibItem::Comment => BibItemView::Comment,
            BibItem::Entry { entry_type, label, tags } => BibItemView::Entry {
                entry_type: entry_type@,
                label: label@,
                tags: tags@,
            },
        }
    }
}

/// The item that is kept of a written one: the type of an entry in upper
/// case, every key in lower case, and of two tags whose keys are then the
/// same, the later one.
pub open spec fn normal(raw: RawItemView) -> BibItemView {
    match raw {
        RawItemView::String(tags) => BibItemView::String(map_of(lower_keys(tags))),
        RawItemView::Preamble => BibItemView::Preamble,
        RawItemView::Comment => BibItemView::Comment,
        RawItemView::Entry { entry_type, label, tags } => BibItemView::Entry {
            entry_type: uppercased(entry_type),
            label,
            tags: map_of(lower_keys(tags)),
        },
    }
}

/// The order in which the tags of a written item are kept: each key
/// stands where it first came, in lower case, with the value that came
/// last. An item without tags has none.
pub open spec fn kept_order(raw: RawItemView) -> Pairs {
    match raw {
        RawItemView::String(tags) => put_all(lower_keys(tags)),
        RawItemView::Preamble => Pairs::empty(),
        RawItemView::Comment => Pairs::empty(),
        RawItemView::Entry { entry_type, label, tags } => put_all(lower_keys(tags)),
    }
}

/// The written items, each as it is kept.
pub open spec fn normal_all(raw: Seq<RawItemView>) -> Seq<BibItemView> {
    raw.map_values(|r: RawItemView| normal(r))
}

/// The views of a list of items.
pub open spec fn views(items: Seq<BibItem>) -> Seq<BibItemView> {
    items.map_values(|i: BibItem| i@)
}

/// Puts written tags, key by key in lower case, into a mapping.
pub fn fold_tags(pairs: &Vec<(String, String)>) -> (m: TagMap)
    ensures
        m@ == map_of(lower_keys(pairs_of(pairs@))),
        m.pairs() == put_all(lower_keys(pairs_of(pairs@))),
        distinct_keys(m.pairs()),
{
    let mut m = TagMap::new();
    let ghost all = lower_keys(pairs_of(pairs@));
    let mut i: usize = 0;
    while i < pairs.len()
        invariant
            i <= pairs.len(),
            all == lower_keys(pairs_of(pairs@)),
            m@ == map_of(all.take(i as int)),
            m.pairs() == put_all(all.take(i as int)),
            distinct_keys(m.pairs()),
        decreases pairs.len() - i,
    {
        let key = to_lower(pairs[i].0.as_str());
        let value = pairs[i].1.clone();
        m.insert(key, value);
        proof {
            assert(all.take(i + 1).drop_last() == all.take(i as int));
        }
        i = i + 1;
    }
    assert(all.take(pairs.len() as int) == all);
    m
}

/// One tag as an entry shows it: four blanks, the key, ` = `, the value
/// in braces, a comma, and the end of the line.
pub open spec fn tag_line(kv: (Seq<char>, Seq<char>)) -> Seq<char> {
    seq![' ', ' ', ' ', ' '] + kv.0 + seq![' ', '=', ' ', '{'] + kv.1 + seq!['}', ',', '\n']
}

/// The lines of the tags, in their order.
pub open spec fn tag_lines(pairs: Pairs) -> Seq<char>
    decreases pairs.len(),
{
    if pairs.len() == 0 {
        Seq::empty()
    } else {
        tag_lines(pairs.drop_last()) + tag_line(pairs.last())
    }
}

/// An entry as text: `@`, the type, `{`, the label and a comma on the
/// first line, one line for each tag, and a closing brace followed by an
/// empty line.
pub open spec fn entry_text(entry_type: Seq<char>, label: Seq<char>, pairs: Pairs) -> Seq<char> {
    seq!['@'] + entry_type + seq!['{'] + label + seq![',', '\n'] + tag_lines(pairs) + seq![
        '}',
        '\n',
        '\n',
    ]
}

impl PartialEq for BibItem {
    /// Two items are equal when they are of one form and hold the same
    /// texts and the same tags.
    fn eq(&self, other: &BibItem) -> (b: bool) {
        match self {
            BibItem::String(a) => match other {
                BibItem::String(b) => a.eq(b),
                _ => false,
            },
            BibItem::Preamble => match other {
                BibItem::Preamble => true,
                _ => false,
            },
            BibItem::Comment => match other {
                BibItem::Comment => true,
                _ => false,
            },
            BibItem::Entry { entry_type: t1, label: l1, tags: m1 } => match other {
                BibItem::Entry { entry_type: t2, label: l2, tags: m2 } => {
                    t1.eq(t2) && l1.eq(l2) && m1.eq(m2)
                },
                _ => false,
            },
        }
    }
}

impl vstd::std_specs::cmp::PartialEqSpecImpl for BibItem {
    open spec fn obeys_eq_spec() -> bool {
        true
    }

    open spec fn eq_spec(&self, other: &BibItem) -> bool {
        self@ == other@
    }
}

impl BibItem {
    /// The tags of the item in their order; none for a preamble or a
    /// comment.
    pub open spec fn tag_order(&self) -> Pairs {
        match self {
            BibItem::String(tags) => tags.pairs(),
            BibItem::Preamble => Pairs::empty(),
            BibItem::Comment => Pairs::empty(),
            BibItem::Entry { entry_type, label, tags } => tags.pairs(),
        }
    }

    /// The item as text. An entry is written out, so that it can be read
    /// again; of the other forms only the name is given.
    pub open spec fn rendered(&self) -> Seq<char> {
        match self {
            BibItem::String(_) => "String"@,
            BibItem::Preamble => "Preamble"@,
            BibItem::Comment => "Comment"@,
            BibItem::Entry { entry_type, label, tags } => entry_text(
                entry_type@,
                label@,
                tags.pairs(),
            ),
        }
    }

    /// The item as text: see [`BibItem::rendered`].
    pub fn to_string(&self) -> (s: String)
        ensures
            s@ == self.rendered(),
    {
        match self {
            BibItem::String(_) => "String".to_owned(),
            BibItem::Preamble => "Preamble".to_owned(),
            BibItem::Comment => "Comment".to_owned(),
            BibItem::Entry { entry_type, label, tags } => {
                let mut s = String::new();
                s.push('@');
                s.append(entry_type.as_str());
                s.push('{');
                s.append(label.as_str());
                s.push(',');
                s.push('\n');
                let ghost head = s@;
                let ghost pairs = tags.pairs();
                let n = tags.len();
                let mut i: usize = 0;
                while i < n
                    invariant
                        i <= n,
                        n == pairs.len(),
                        pairs == tags.pairs(),
                        s@ == head + tag_lines(pairs.take(i as int)),
                    decreases n - i,
                {
                    let ghost before = s@;
                    match tags.get_index(i) {
                        Some((key, value)) => {
                            s.push(' ');
                            s.push(' ');
                            s.push(' ');
                            s.push(' ');
                            s.append(key.as_str());
                            s.push(' ');
                            s.push('=');
                            s.push(' ');
                            s.push('{');
                            s.append(value.as_str());
                            s.push('}');
                            s.push(',');
                            s.push('\n');
                            proof {
                                assert(pairs.take(i + 1).drop_last() =~= pairs.take(i as int));
                                assert(head + (tag_lines(pairs.take(i as int)) + tag_line(
                                    pairs[i as int],
                                )) =~= before + tag_line(pairs[i as int]));
                            }
                        },
                        None => {},
                    }
                    i = i + 1;
                }
                assert(pairs.take(n as int) =~= pairs);
                s.push('}');
                s.push('\n');
                s.push('\n');
                s
            },
        }
    }

    /// The item that is kept of a written one.
    pub fn from_raw(raw: RawItem) -> (item: BibItem)
        ensures
            item@ == normal(raw@),
            item.tag_order() == kept_order(raw@),
    {
        match raw {
            RawItem::String(tags) => BibItem::String(fold_tags(&tags)),
            RawItem::Preamble => BibItem::Preamble,
            RawItem::Comment => BibItem::Comment,
            RawItem::Entry { entry_type, label, tags } => BibItem::Entry {
                entry_type: to_upper(entry_type.as_str()),
                label,
                tags: fold_tags(&tags),
            },
        }
    }
}

} // verus!
