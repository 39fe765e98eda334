//! The tags of an item: a mapping from keys to values.
//!
//! A [`TagMap`] keeps its tags in the order in which their keys first
//! came, and holds no key twice. Its view is the mapping; [`TagMap::pairs`]
//! is the same content in order.

use vstd::prelude::*;
use crate::grammar::Pairs;
use crate::unicode::lowercased;

verus! {

/// The mapping that a list of pairs builds when each pair is put in turn
/// into a mapping that starts empty: of two pairs with one key the later
/// one stays.
pub open spec fn map_of(pairs: Pairs) -> Map<Seq<char>, Seq<char>>
    decreases pairs.len(),
{
    if pairs.len() == 0 {
        Map::empty()
    } else {
        map_of(pairs.drop_last()).insert(pairs.last().0, pairs.last().1)
    }
}

/// A pair with its key in lower case.
pub open spec fn lower_key(kv: (Seq<char>, Seq<char>)) -> (Seq<char>, Seq<char>) {
    (lowercased(kv.0), kv.1)
}

/// The pairs with their keys put into lower case.
pub open spec fn lower_keys(pairs: Pairs) -> Pairs {
    pairs.map_values(|kv: (Seq<char>, Seq<char>)| lower_key(kv))
}

/// Whether no key stands twice in the list.
pub open spec fn distinct_keys(pairs: Pairs) -> bool {
    forall|i: int, j: int| 0 <= i < j < pairs.len() ==> pairs[i].0 != pairs[j].0
}

/// A key is in the mapping exactly when some pair holds it.
pub proof fn lemma_map_of_dom(pairs: Pairs, key: Seq<char>)
    ensures
        map_of(pairs).contains_key(key) <==> exists|i: int|
            0 <= i < pairs.len() && #[trigger] pairs[i].0 == key,
    decreases pairs.len(),
{
    if pairs.len() > 0 {
        let front = pairs.drop_last();
        lemma_map_of_dom(front, key);
        if map_of(pairs).contains_key(key) {
            if pairs.last().0 == key {
                assert(pairs[pairs.len() - 1].0 == key);
            } else {
                let i = choose|i: int| 0 <= i < front.len() && #[trigger] front[i].0 == key;
                assert(pairs[i].0 == key);
            }
        }
        if exists|i: int| 0 <= i < pairs.len() && #[trigger] pairs[i].0 == key {
            let i = choose|i: int| 0 <= i < pairs.len() && #[trigger] pairs[i].0 == key;
            if i < pairs.len() - 1 {
                assert(front[i].0 == key);
            }
        }
    }
}

/// Where no key stands twice, each pair's value is what the mapping
/// gives for its key.
pub proof fn lemma_map_of_value(pairs: Pairs, i: int)
    requires
        distinct_keys(pairs),
        0 <= i < pairs.len(),
    ensures
        map_of(pairs).contains_key(pairs[i].0),
        map_of(pairs)[pairs[i].0] == pairs[i].1,
    decreases pairs.len(),
{
    if i < pairs.len() - 1 {
        lemma_map_of_value(pairs.drop_last(), i);
    }
}

/// Where no key stands twice, the mapping has as many keys as the list
/// has pairs.
pub proof fn lemma_map_of_len(pairs: Pairs)
    requires
        distinct_keys(pairs),
    ensures
        map_of(pairs).dom().finite(),
        map_of(pairs).dom().len() == pairs.len(),
    decreases pairs.len(),
{
    if pairs.len() > 0 {
        let front = pairs.drop_last();
        let last = pairs.len() - 1;
        assert(distinct_keys(front)) by {
            assert forall|a: int, b: int| 0 <= a < b < front.len() implies front[a].0
                != front[b].0 by {
                assert(pairs[a].0 != pairs[b].0);
            }
        }
        lemma_map_of_len(front);
        lemma_map_of_dom(front, pairs[last].0);
        if map_of(front).contains_key(pairs[last].0) {
            let i = choose|i: int| 0 <= i < front.len() && #[trigger] front[i].0 == pairs[last].0;
            assert(pairs[i].0 != pairs[last].0);
        }
        assert(map_of(pairs).dom() =~= map_of(front).dom().insert(pairs[last].0));
    }
}

/// Keys and values as texts.
pub open spec fn pairs_of(entries: Seq<(String, String)>) -> Pairs {
    Seq::new(entries.len(), |i: int| (entries[i].0@, entries[i].1@))
}

/// Tags by key.
#[derive(Debug)]
pub struct TagMap {
    entries: Vec<(String, String)>,
}

impl View for TagMap {
    type V = Map<Seq<char>, Seq<char>>;

    open spec fn view(&self) -> Map<Seq<char>, Seq<char>> {
        map_of(self.pairs())
    }
}

impl TagMap {
    /// The tags in the order in which their keys first came.
    pub closed spec fn pairs(&self) -> Pairs {
        pairs_of(self.entries@)
    }

    #[verifier::type_invariant]
    spec fn keys_differ(&self) -> bool {
        distinct_keys(self.pairs())
    }

    /// A mapping without tags.
    pub fn new() -> (m: TagMap)
        ensures
            m@ == Map::<Seq<char>, Seq<char>>::empty(),
            m.pairs() == Pairs::empty(),
            distinct_keys(m.pairs()),
    {
        let m = TagMap { entries: Vec::new() };
        m
    }

    /// The number of tags.
    pub fn len(&self) -> (n: usize)
        ensures
            n == self.pairs().len(),
            n == self@.len(),
    {
        proof {
            use_type_invariant(self);
            lemma_map_of_len(self.pairs());
        }
        self.entries.len()
    }

    /// Whether there is no tag.
    pub fn is_empty(&self) -> (b: bool)
        ensures
            b == (self.pairs().len() == 0),
            b == (self@ == Map::<Seq<char>, Seq<char>>::empty()),
    {
        proof {
            if self.pairs().len() > 0 {
                lemma_map_of_dom(self.pairs(), self.pairs()[0].0);
            }
        }
        self.entries.len() == 0
    }

    /// Where the tag with this key stands, if there is one.
    fn find(&self, key: &String) -> (r: Option<usize>)
        ensures
            match r {
                Some(i) => i < self.pairs().len() && self.pairs()[i as int].0 == key@,
                None => forall|i: int| 0 <= i < self.pairs().len() ==> self.pairs()[i].0 != key@,
            },
    {
        let mut i: usize = 0;
        while i < self.entries.len()
            invariant
                i <= self.entries.len(),
                forall|j: int| 0 <= j < i ==> self.pairs()[j].0 != key@,
            decreases self.entries.len() - i,
        {
            if self.entries[i].0 == *key {
                return Some(i);
            }
            i = i + 1;
        }
        None
    }

    /// The value of a key, if the mapping holds it.
    pub fn get(&self, key: &str) -> (r: Option<&String>)
        ensures
            match r {
                Some(v) => self@.contains_key(key@) && v@ == self@[key@],
                None => !self@.contains_key(key@),
            },
    {
        let owned = key.to_owned();
        proof {
            use_type_invariant(self);
            lemma_map_of_dom(self.pairs(), key@);
        }
        match self.find(&owned) {
            Some(i) => {
                proof {
                    lemma_map_of_value(self.pairs(), i as int);
                }
                Some(&self.entries[i].1)
            },
            None => None,
        }
    }

    /// Whether the mapping holds a key.
    pub fn contains_key(&self, key: &str) -> (b: bool)
        ensures
            b == self@.contains_key(key@),
    {
        self.get(key).is_some()
    }

    /// The tag at place `i` in the order of the keys' first coming, or
    /// `None` behind the last.
    pub fn get_index(&self, i: usize) -> (r: Option<(&String, &String)>)
        ensures
            match r {
                Some(kv) => i < self.pairs().len() && self.pairs()[i as int] == (kv.0@, kv.1@),
                None => i >= self.pairs().len(),
            },
    {
        if i < self.entries.len() {
            Some((&self.entries[i].0, &self.entries[i].1))
        } else {
            None
        }
    }

    /// Puts a tag into the mapping. A key that the mapping holds keeps its
    /// place and gets the new value; a new key goes behind the others.
    pub fn insert(&mut self, key: String, value: String)
        ensures
            final(self)@ == old(self)@.insert(key@, value@),
            final(self).pairs() == put(old(self).pairs(), key@, value@),
            distinct_keys(final(self).pairs()),
    {
        proof {
            use_type_invariant(&*self);
        }
        let ghost before = self.pairs();
        let ghost k = key@;
        let ghost v = value@;
        let found = self.find(&key);
        let mut entries: Vec<(String, String)> = Vec::new();
        std::mem::swap(&mut self.entries, &mut entries);
        match found {
            Some(i) => {
                entries.set(i, (key, value));
                proof {
                    assert(pairs_of(entries@) =~= before.update(i as int, (k, v)));
                    lemma_index_of_key(before, k, i as int);
                    lemma_put_same(before, i as int, v);
                }
            },
            None => {
                entries.push((key, value));
                proof {
                    assert(pairs_of(entries@) =~= before.push((k, v)));
                    assert(pairs_of(entries@).drop_last() =~= before);
                    lemma_no_index(before, k);
                }
            },
        }
        std::mem::swap(&mut self.entries, &mut entries);
    }
}

/// Whether every key of `a` has in `b` the value that it has in `a`.
pub open spec fn part_of(a: Map<Seq<char>, Seq<char>>, b: Map<Seq<char>, Seq<char>>) -> bool {
    forall|k: Seq<char>| #[trigger] a.contains_key(k) ==> b.contains_key(k) && b[k] == a[k]
}

impl TagMap {
    /// Whether every tag of this mapping is a tag of the other.
    pub fn within(&self, other: &TagMap) -> (b: bool)
        ensures
            b == part_of(self@, other@),
    {
        proof {
            use_type_invariant(self);
        }
        let mut i: usize = 0;
        while i < self.entries.len()
            invariant
                i <= self.entries.len(),
                self.pairs().len() == self.entries.len(),
                distinct_keys(self.pairs()),
                forall|j: int|
                    0 <= j < i ==> other@.contains_key(#[trigger] self.pairs()[j].0)
                        && other@[self.pairs()[j].0] == self.pairs()[j].1,
            decreases self.entries.len() - i,
        {
            proof {
                lemma_map_of_value(self.pairs(), i as int);
            }
            match other.get(self.entries[i].0.as_str()) {
                Some(v) => {
                    if !(*v == self.entries[i].1) {
                        return false;
                    }
                },
                None => {
                    return false;
                },
            }
            i = i + 1;
        }
        proof {
            assert forall|k: Seq<char>| #[trigger]
                self@.contains_key(k) implies other@.contains_key(k) && self@[k] == other@[k] by {
                lemma_map_of_dom(self.pairs(), k);
                let j = choose|j: int|
                    0 <= j < self.pairs().len() && #[trigger] self.pairs()[j].0 == k;
                lemma_map_of_value(self.pairs(), j);
            }
        }
        true
    }
}

impl PartialEq for TagMap {
    /// Two mappings are equal when they hold the same tags, in whatever
    /// order.
    fn eq(&self, other: &TagMap) -> (b: bool) {
        let b = self.within(other) && other.within(self);
        proof {
            if b {
                assert(self@ =~= other@);
            }
        }
        b
    }
}

impl vstd::std_specs::cmp::PartialEqSpecImpl for TagMap {
    open spec fn obeys_eq_spec() -> bool {
        true
    }

    open spec fn eq_spec(&self, other: &TagMap) -> bool {
        self@ == other@
    }
}

/// The place of the first pair with this key, or the length of the list
/// where there is none.
pub open spec fn index_of_key(pairs: Pairs, key: Seq<char>) -> int
    decreases pairs.len(),
{
    if pairs.len() == 0 {
        0
    } else if pairs[0].0 == key {
        0
    } else {
        1 + index_of_key(pairs.drop_first(), key)
    }
}

/// The list after a tag is put in: the pair that holds the key gets the
/// value, and where none holds it the tag goes to the end.
pub open spec fn put(pairs: Pairs, key: Seq<char>, value: Seq<char>) -> Pairs {
    let i = index_of_key(pairs, key);
    if i < pairs.len() {
        pairs.update(i, (key, value))
    } else {
        pairs.push((key, value))
    }
}

proof fn lemma_index_of_key(pairs: Pairs, key: Seq<char>, i: int)
    requires
        0 <= i < pairs.len(),
        pairs[i].0 == key,
        forall|j: int| 0 <= j < i ==> pairs[j].0 != key,
    ensures
        index_of_key(pairs, key) == i,
    decreases pairs.len(),
{
    if i > 0 {
        lemma_index_of_key(pairs.drop_first(), key, i - 1);
    }
}

proof fn lemma_no_index(pairs: Pairs, key: Seq<char>)
    requires
        forall|j: int| 0 <= j < pairs.len() ==> pairs[j].0 != key,
    ensures
        index_of_key(pairs, key) == pairs.len(),
    decreases pairs.len(),
{
    if pairs.len() > 0 {
        lemma_no_index(pairs.drop_first(), key);
    }
}

/// Giving a pair a new value gives the mapping that value for the pair's
/// key, where no key stands twice.
proof fn lemma_put_same(pairs: Pairs, i: int, value: Seq<char>)
    requires
        distinct_keys(pairs),
        0 <= i < pairs.len(),
    ensures
        map_of(pairs.update(i, (pairs[i].0, value))) == map_of(pairs).insert(pairs[i].0, value),
        distinct_keys(pairs.update(i, (pairs[i].0, value))),
    decreases pairs.len(),
{
    let key = pairs[i].0;
    let after = pairs.update(i, (key, value));
    let front = pairs.drop_last();
    let last = pairs.len() - 1;
    if i == last {
        assert(after.drop_last() =~= front);
    } else {
        lemma_put_same(front, i, value);
        assert(after.drop_last() =~= front.update(i, (key, value)));
    }
}

/// The tags that a list of pairs leaves when each is put in turn into
/// tags that start empty.
pub open spec fn put_all(pairs: Pairs) -> Pairs
    decreases pairs.len(),
{
    if pairs.len() == 0 {
        Pairs::empty()
    } else {
        put(put_all(pairs.drop_last()), pairs.last().0, pairs.last().1)
    }
}

/// Where the first pair with a key stands: at that place stands the key
/// and before it it does not; or no pair holds the key.
proof fn lemma_index(pairs: Pairs, key: Seq<char>)
    ensures
        0 <= index_of_key(pairs, key) <= pairs.len(),
        index_of_key(pairs, key) < pairs.len() ==> pairs[index_of_key(pairs, key)].0 == key,
        forall|j: int| 0 <= j < index_of_key(pairs, key) ==> (#[trigger] pairs[j]).0 != key,
    decreases pairs.len(),
{
    if pairs.len() > 0 && pairs[0].0 != key {
        let rest = pairs.drop_first();
        lemma_index(rest, key);
        assert forall|j: int| 0 <= j < index_of_key(pairs, key) implies (#[trigger] pairs[j]).0
            != key by {
            if j > 0 {
                assert(rest[j - 1].0 != key);
            }
        }
    }
}

/// Putting a tag into a list without repeated keys gives the mapping the
/// value for the key, and again a list without repeated keys.
pub proof fn lemma_put(pairs: Pairs, key: Seq<char>, value: Seq<char>)
    requires
        distinct_keys(pairs),
    ensures
        distinct_keys(put(pairs, key, value)),
        map_of(put(pairs, key, value)) == map_of(pairs).insert(key, value),
{
    lemma_index(pairs, key);
    let i = index_of_key(pairs, key);
    let after = put(pairs, key, value);
    if i < pairs.len() {
        lemma_put_same(pairs, i, value);
    } else {
        assert(after.drop_last() =~= pairs);
    }
}

/// The tags that a list of pairs leaves hold no key twice, and they are
/// the mapping that the list builds.
pub proof fn lemma_put_all(pairs: Pairs)
    ensures
        distinct_keys(put_all(pairs)),
        map_of(put_all(pairs)) == map_of(pairs),
    decreases pairs.len(),
{
    if pairs.len() > 0 {
        lemma_put_all(pairs.drop_last());
        lemma_put(put_all(pairs.drop_last()), pairs.last().0, pairs.last().1);
    }
}

/// Putting in turn the pairs of a list that holds no key twice gives
/// the list itself.
pub proof fn lemma_put_all_distinct(pairs: Pairs)
    requires
        distinct_keys(pairs),
    ensures
        put_all(pairs) == pairs,
    decreases pairs.len(),
{
    if pairs.len() > 0 {
        let front = pairs.drop_last();
        let last = pairs.len() - 1;
        lemma_put_all_distinct(front);
        lemma_no_index(front, pairs[last].0);
    }
}

} // verus!
