//! Tables from keys that have a text to values, which can be walked through.

use vstd::hash_map::StringHashMap;
use vstd::prelude::*;

verus! {

/// Keys that a table finds by their text.
pub trait TextKey: Sized {
    /// The text of a key.
    spec fn text_of(self) -> Seq<char>;

    /// The text of a key.
    fn text(&self) -> (r: String)
        ensures
            r@ == self.text_of(),
    ;
}

impl TextKey for String {
    /// A text is its own text.
    open spec fn text_of(self) -> Seq<char> {
        self@
    }

    fn text(&self) -> (r: String) {
        self.clone()
    }
}

/// A table of entries, found by the text of their key.
pub struct Table<K: TextKey, V: Copy> {
    index: StringHashMap<usize>,
    entries: Vec<(K, V)>,
}

/// Whether entries list a table from texts to values, each text once.
pub open spec fn lists<K: TextKey, V>(entries: Seq<(K, V)>, m: Map<Seq<char>, V>) -> bool {
    &&& forall|i: int|
        0 <= i < entries.len() ==> m.contains_key((#[trigger] entries[i]).0.text_of())
            && m[entries[i].0.text_of()] == entries[i].1
    &&& forall|i: int, j: int|
        0 <= i < j < entries.len() ==> (#[trigger] entries[i]).0.text_of() != (
        #[trigger] entries[j]).0.text_of()
    &&& forall|t: Seq<char>| #[trigger]
        m.contains_key(t) ==> exists|i: int|
            0 <= i < entries.len() && (#[trigger] entries[i]).0.text_of() == t
}

/// The table that entries give when they are written one after the other.
pub open spec fn written<K: TextKey, V>(entries: Seq<(K, V)>) -> Map<Seq<char>, V>
    decreases entries.len(),
{
    if entries.len() == 0 {
        Map::empty()
    } else {
        written(entries.drop_last()).insert(entries.last().0.text_of(), entries.last().1)
    }
}

/// Writing the entries that list a table gives the table.
pub proof fn lemma_written_lists<K: TextKey, V>(entries: Seq<(K, V)>, m: Map<Seq<char>, V>)
    requires
        lists(entries, m),
    ensures
        written(entries) == m,
    decreases entries.len(),
{
    if entries.len() == 0 {
        assert(m =~= Map::empty());
    } else {
        let rest = entries.drop_last();
        let last = entries.last();
        let t = last.0.text_of();
        let smaller = m.remove(t);
        assert(entries[entries.len() - 1] == last);
        assert(lists(rest, smaller)) by {
            assert forall|i: int| 0 <= i < rest.len() implies smaller.contains_key(
                (#[trigger] rest[i]).0.text_of(),
            ) && smaller[rest[i].0.text_of()] == rest[i].1 by {
                assert(entries[i] == rest[i]);
            }
            assert forall|i: int, j: int| 0 <= i < j < rest.len() implies (
            #[trigger] rest[i]).0.text_of() != (#[trigger] rest[j]).0.text_of() by {
                assert(entries[i] == rest[i]);
                assert(entries[j] == rest[j]);
            }
            assert forall|u: Seq<char>| #[trigger] smaller.contains_key(u) implies exists|i: int|
                0 <= i < rest.len() && (#[trigger] rest[i]).0.text_of() == u by {
                assert(m.contains_key(u));
                let i = choose|i: int|
                    0 <= i < entries.len() && (#[trigger] entries[i]).0.text_of() == u;
                assert(rest[i] == entries[i]);
            }
        }
        lemma_written_lists(rest, smaller);
        assert(smaller.insert(t, last.1) =~= m);
    }
}

/// Writing entries touches no other texts than theirs.
pub proof fn lemma_written_texts<K: TextKey, V>(entries: Seq<(K, V)>, t: Seq<char>)
    requires
        written(entries).contains_key(t),
    ensures
        exists|i: int| 0 <= i < entries.len() && (#[trigger] entries[i]).0.text_of() == t,
    decreases entries.len(),
{
    if entries.len() > 0 {
        let rest = entries.drop_last();
        if entries.last().0.text_of() == t {
            assert(entries[entries.len() - 1].0.text_of() == t);
        } else {
            lemma_written_texts(rest, t);
            let i = choose|i: int| 0 <= i < rest.len() && (#[trigger] rest[i]).0.text_of() == t;
            assert(entries[i].0.text_of() == t);
        }
    }
}

impl<K: TextKey, V: Copy> View for Table<K, V> {
    type V = Map<Seq<char>, V>;

    /// The values by the text of their key.
    closed spec fn view(&self) -> Map<Seq<char>, V> {
        Map::new(
            |t: Seq<char>| self.index@.contains_key(t),
            |t: Seq<char>| self.entries@[self.index@[t] as int].1,
        )
    }
}

impl<K: TextKey, V: Copy> Table<K, V> {
    /// The index finds each entry.
    pub closed spec fn wf(self) -> bool {
        &&& forall|i: int|
            0 <= i < self.entries@.len() ==> self.index@.contains_key(
                (#[trigger] self.entries@[i]).0.text_of(),
            ) && self.index@[self.entries@[i].0.text_of()] == i
        &&& forall|t: Seq<char>| #[trigger]
            self.index@.contains_key(t) ==> self.index@[t] < self.entries@.len()
                && self.entries@[self.index@[t] as int].0.text_of() == t
    }

    /// An empty table.
    pub fn new() -> (r: Table<K, V>)
        ensures
            r.wf(),
            r@ == Map::<Seq<char>, V>::empty(),
    {
        let r = Table { index: StringHashMap::new(), entries: Vec::new() };
        assert(r@ =~= Map::<Seq<char>, V>::empty());
        r
    }

    /// The value of a key.
    pub fn get(&self, k: &K) -> (r: Option<V>)
        requires
            self.wf(),
        ensures
            match r {
                Some(v) => self@.contains_key(k.text_of()) && self@[k.text_of()] == v,
                None => !self@.contains_key(k.text_of()),
            },
    {
        let t = k.text();
        self.find(t.as_str())
    }

    /// The value of the key with the given text.
    pub fn find(&self, t: &str) -> (r: Option<V>)
        requires
            self.wf(),
        ensures
            match r {
                Some(v) => self@.contains_key(t@) && self@[t@] == v,
                None => !self@.contains_key(t@),
            },
    {
        match self.index.get(t) {
            Some(i) => Some(self.entries[*i].1),
            None => None,
        }
    }

    /// Sets the value of a key.
    pub fn insert(&mut self, k: K, v: V)
        requires
            old(self).wf(),
        ensures
            final(self).wf(),
            final(self)@ == old(self)@.insert(k.text_of(), v),
    {
        let t = k.text();
        let ghost before = *self;
        let found = match self.index.get(t.as_str()) {
            Some(i) => Some(*i),
            None => None,
        };
        match found {
            Some(i) => {
                self.entries.set(i, (k, v));
            },
            None => {
                self.index.insert(t, self.entries.len());
                self.entries.push((k, v));
            },
        }
        assert(self@ =~= before@.insert(k.text_of(), v));
    }

    /// The entries, in the order in which their keys came.
    pub fn entries(&self) -> (r: &Vec<(K, V)>)
        requires
            self.wf(),
        ensures
            lists(r@, self@),
    {
        proof {
            assert forall|t: Seq<char>| #[trigger] self@.contains_key(t) implies exists|i: int|
                0 <= i < self.entries@.len() && (#[trigger] self.entries@[i]).0.text_of() == t by {
                assert(self.entries@[self.index@[t] as int].0.text_of() == t);
            }
        }
        &self.entries
    }
}

} // verus!
