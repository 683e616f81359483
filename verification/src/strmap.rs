//! A small map keyed by strings, backed by a vector of entries.
//!
//! The engine keeps a handful of path-keyed tables (the metadata store, the
//! modelled file systems). They are tiny, so a linear association list with a
//! uniqueness invariant serves, and it carries a precise `Map` view for
//! contracts. The order of entries is also exposed, as a sequence view, for
//! the code that serializes a table.

use vstd::prelude::*;

verus! {

/// True when no two entries share a key.
pub open spec fn distinct_keys<T>(s: Seq<(Seq<char>, T)>) -> bool {
    forall|i: int, j: int| 0 <= i < j < s.len() ==> s[i].0 != s[j].0
}

/// The map described by a sequence of entries; a later entry overrides an
/// earlier one with the same key.
pub open spec fn map_of<T>(s: Seq<(Seq<char>, T)>) -> Map<Seq<char>, T>
    decreases s.len(),
{
    if s.len() == 0 {
        Map::empty()
    } else {
        map_of(s.drop_last()).insert(s.last().0, s.last().1)
    }
}

pub proof fn lemma_map_of_absent<T>(s: Seq<(Seq<char>, T)>, k: Seq<char>)
    requires
        forall|i: int| 0 <= i < s.len() ==> s[i].0 != k,
    ensures
        !map_of(s).contains_key(k),
    decreases s.len(),
{
    if s.len() > 0 {
        lemma_map_of_absent(s.drop_last(), k);
    }
}

pub proof fn lemma_map_of_found<T>(s: Seq<(Seq<char>, T)>, k: Seq<char>, i: int)
    requires
        distinct_keys(s),
        0 <= i < s.len(),
        s[i].0 == k,
    ensures
        map_of(s).contains_key(k),
        map_of(s)[k] == s[i].1,
    decreases s.len(),
{
    if i == s.len() - 1 {
    } else {
        lemma_map_of_found(s.drop_last(), k, i);
    }
}

/// Every key of the map stands in the sequence, and the other way round.
pub proof fn lemma_map_of_dom<T>(s: Seq<(Seq<char>, T)>, k: Seq<char>)
    ensures
        map_of(s).contains_key(k) <==> exists|i: int| 0 <= i < s.len() && s[i].0 == k,
    decreases s.len(),
{
    if s.len() > 0 {
        lemma_map_of_dom(s.drop_last(), k);
        if map_of(s).contains_key(k) && k != s.last().0 {
            let i = choose|i: int| 0 <= i < s.drop_last().len() && s.drop_last()[i].0 == k;
            assert(s[i].0 == k);
        }
        if exists|i: int| 0 <= i < s.len() && s[i].0 == k {
            let i = choose|i: int| 0 <= i < s.len() && s[i].0 == k;
            if i < s.len() - 1 {
                assert(s.drop_last()[i].0 == k);
            }
        }
    }
}

pub proof fn lemma_map_of_remove<T>(s: Seq<(Seq<char>, T)>, i: int)
    requires
        distinct_keys(s),
        0 <= i < s.len(),
    ensures
        map_of(s.remove(i)) =~= map_of(s).remove(s[i].0),
    decreases s.len(),
{
    if i == s.len() - 1 {
        assert(s.remove(i) =~= s.drop_last());
        assert(forall|j: int| 0 <= j < s.drop_last().len() ==> s.drop_last()[j].0 != s[i].0);
        lemma_map_of_absent(s.drop_last(), s[i].0);
    } else {
        assert(s.remove(i).drop_last() =~= s.drop_last().remove(i));
        assert(s.remove(i).last() == s.last());
        lemma_map_of_remove(s.drop_last(), i);
    }
}

/// A map from strings to values, with unique keys.
pub struct KvMap<V> {
    entries: Vec<(String, V)>,
}

impl<V: View> KvMap<V> {
    /// The entries in insertion order, by their views.
    pub closed spec fn seq_view(&self) -> Seq<(Seq<char>, V::V)> {
        self.entries@.map_values(|e: (String, V)| (e.0@, e.1@))
    }

    /// The table as a map.
    pub open spec fn view(&self) -> Map<Seq<char>, V::V> {
        map_of(self.seq_view())
    }

    /// No two entries share a key; every operation keeps this.
    pub open spec fn wf(&self) -> bool {
        distinct_keys(self.seq_view())
    }

    pub fn new() -> (r: KvMap<V>)
        ensures
            r.wf(),
            r.seq_view() =~= Seq::<(Seq<char>, V::V)>::empty(),
            r@ =~= Map::<Seq<char>, V::V>::empty(),
    {
        KvMap { entries: Vec::new() }
    }

    pub fn len(&self) -> (r: usize)
        ensures
            r == self.seq_view().len(),
    {
        self.entries.len()
    }

    /// The entry at a given position, for walking the table in order.
    pub fn entry_at(&self, i: usize) -> (r: (&String, &V))
        requires
            i < self.seq_view().len(),
        ensures
            r.0@ == self.seq_view()[i as int].0,
            r.1@ == self.seq_view()[i as int].1,
    {
        let e = &self.entries[i];
        (&e.0, &e.1)
    }

    /// Position of the entry with the given key, if any.
    fn position(&self, key: &String) -> (r: Option<usize>)
        ensures
            match r {
                Some(i) => i < self.seq_view().len() && self.seq_view()[i as int].0 == key@,
                None => forall|i: int|
                    0 <= i < self.seq_view().len() ==> self.seq_view()[i].0 != key@,
            },
    {
        let n = self.entries.len();
        let mut i: usize = 0;
        while i < n
            invariant
                n == self.seq_view().len(),
                i <= n,
                forall|j: int| 0 <= j < i ==> self.seq_view()[j].0 != key@,
            decreases n - i,
        {
            if self.entries[i].0 == *key {
                return Some(i);
            }
            i += 1;
        }
        None
    }

    /// The value recorded under `key`, if any.
    pub fn get(&self, key: &String) -> (r: Option<&V>)
        requires
            self.wf(),
        ensures
            match r {
                Some(v) => self@.contains_key(key@) && v@ == self@[key@],
                None => !self@.contains_key(key@),
            },
    {
        match self.position(key) {
            Some(i) => {
                proof {
                    lemma_map_of_found(self.seq_view(), key@, i as int);
                }
                Some(&self.entries[i].1)
            },
            None => {
                proof {
                    lemma_map_of_absent(self.seq_view(), key@);
                }
                None
            },
        }
    }

    /// Record `value` under `key`, replacing any earlier entry for it.
    ///
    /// A fresh key goes to the end of the table, so filling an empty table
    /// keeps insertion order.
    pub fn insert(&mut self, key: String, value: V)
        requires
            old(self).wf(),
        ensures
            final(self).wf(),
            final(self)@ =~= old(self)@.insert(key@, value@),
            !old(self)@.contains_key(key@) ==> final(self).seq_view() =~= old(
                self,
            ).seq_view().push((key@, value@)),
            forall|i: int|
                0 <= i < final(self).seq_view().len() ==> (#[trigger] final(self).seq_view()[i]
                    == (key@, value@) || old(self).seq_view().contains(final(self).seq_view()[i])),
    {
        let ghost s0 = self.seq_view();
        let pos = self.position(&key);
        match pos {
            Some(i) => {
                proof {
                    lemma_map_of_remove(s0, i as int);
                    lemma_map_of_dom(s0, key@);
                }
                self.entries.remove(i);
                proof {
                    assert(self.seq_view() =~= s0.remove(i as int));
                }
                let ghost s1 = self.seq_view();
                self.entries.push((key, value));
                proof {
                    assert(self.seq_view() =~= s1.push((key@, value@)));
                    assert(self.seq_view().drop_last() =~= s1);
                    assert(self@ =~= map_of(s0).insert(key@, value@));
                }
            },
            None => {
                proof {
                    lemma_map_of_dom(s0, key@);
                }
                self.entries.push((key, value));
                proof {
                    assert(self.seq_view() =~= s0.push((key@, value@)));
                    assert(self.seq_view().drop_last() =~= s0);
                }
            },
        }
        proof {
            assert(forall|i: int|
                0 <= i < self.seq_view().len() && self.seq_view()[i] != (key@, value@)
                    ==> s0.contains(#[trigger] self.seq_view()[i]));
        }
    }
}

/// A set of strings, backed by a vector without duplicates of meaning:
/// membership is what counts, not order or multiplicity.
pub struct StrSet {
    items: Vec<String>,
}

impl StrSet {
    /// Membership, at the level of string contents.
    pub closed spec fn has(&self, p: Seq<char>) -> bool {
        exists|i: int| 0 <= i < self.items@.len() && self.items@[i]@ == p
    }

    /// The set of string contents held.
    pub open spec fn view(&self) -> Set<Seq<char>> {
        Set::new(|p: Seq<char>| self.has(p))
    }

    pub fn new() -> (r: StrSet)
        ensures
            r@ =~= Set::<Seq<char>>::empty(),
    {
        let r = StrSet { items: Vec::new() };
        proof {
            assert(forall|p: Seq<char>| !r.has(p));
        }
        r
    }

    pub fn contains(&self, p: &String) -> (r: bool)
        ensures
            r == self@.contains(p@),
    {
        let n = self.items.len();
        let mut i: usize = 0;
        while i < n
            invariant
                i <= n,
                n == self.items@.len(),
                forall|j: int| 0 <= j < i ==> self.items@[j]@ != p@,
            decreases n - i,
        {
            if self.items[i] == *p {
                return true;
            }
            i += 1;
        }
        false
    }

    pub fn insert(&mut self, p: String)
        ensures
            final(self)@ =~= old(self)@.insert(p@),
    {
        let ghost old_items = self.items@;
        self.items.push(p);
        proof {
            assert(forall|q: Seq<char>|
                old(self).has(q) ==> #[trigger] self.has(q)) by {
                assert(forall|i: int|
                    0 <= i < old_items.len() ==> self.items@[i] == #[trigger] old_items[i]);
            }
            assert(self.items@[old_items.len() as int]@ == p@);
            assert(self.has(p@));
            assert(forall|q: Seq<char>|
                #[trigger] self.has(q) ==> old(self).has(q) || q == p@) by {
                assert(forall|i: int|
                    0 <= i < old_items.len() ==> self.items@[i] == #[trigger] old_items[i]);
            }
        }
    }
}

} // verus!
