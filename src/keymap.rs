//! A map that keeps its keys in insertion order.
use vstd::prelude::*;

use crate::types::Identity;

verus! {

/// A key that can be compared with another by its view.
pub trait MapKey: View + Sized {
    fn key_eq(&self, other: &Self) -> (r: bool)
        ensures
            r == (self@ == other@),
    ;
}

impl MapKey for String {
    fn key_eq(&self, other: &Self) -> (r: bool) {
        *self == *other
    }
}

impl MapKey for Identity {
    fn key_eq(&self, other: &Self) -> (r: bool) {
        self.same_as(other)
    }
}

/// Entries keyed by `K`, each key present once, in the order in which the
/// keys were first inserted.
pub struct KeyMap<K: MapKey, V> {
    entries: Vec<(K, V)>,
    map: Ghost<Map<K::V, V>>,
}

impl<K: MapKey, V> View for KeyMap<K, V> {
    type V = Map<K::V, V>;

    closed spec fn view(&self) -> Map<K::V, V> {
        self.map@
    }
}

/// A well-formed map lists each key once.
pub broadcast proof fn lemma_wf_keys_unique<K: MapKey, V>(m: KeyMap<K, V>)
    ensures
        #[trigger] m.wf() ==> m.keys().no_duplicates(),
{
    if m.wf() {
        m.lemma_keys();
    }
}

impl<K: MapKey, V> KeyMap<K, V> {
    /// The keys, in the map's order.
    pub closed spec fn keys(&self) -> Seq<K::V> {
        self.entries@.map_values(|e: (K, V)| e.0@)
    }

    pub closed spec fn wf(&self) -> bool {
        &&& forall|i: int, j: int|
            0 <= i < j < self.entries@.len() ==> self.entries@[i].0@ != self.entries@[j].0@
        &&& forall|i: int|
            0 <= i < self.entries@.len() ==> {
                &&& self.map@.contains_key(#[trigger] self.entries@[i].0@)
                &&& self.map@[self.entries@[i].0@] == self.entries@[i].1
            }
        &&& forall|k: K::V|
            #[trigger] self.map@.contains_key(k) ==> exists|i: int|
                0 <= i < self.entries@.len() && self.entries@[i].0@ == k
    }

    /// The key order lists each key of the map once.
    pub proof fn lemma_keys(&self)
        requires
            self.wf(),
        ensures
            self.keys().no_duplicates(),
            self.keys().len() == self@.dom().len(),
            forall|k: K::V| self@.contains_key(k) <==> self.keys().contains(k),
            forall|i: int| 0 <= i < self.keys().len() ==> self@.contains_key(#[trigger] self.keys()[i]),
    {
        assert forall|k: K::V| self@.contains_key(k) <==> self.keys().contains(k) by {
            if self@.contains_key(k) {
                let i = choose|i: int| 0 <= i < self.entries@.len() && self.entries@[i].0@ == k;
                assert(self.keys()[i] == k);
            }
            if self.keys().contains(k) {
                let i = choose|i: int| 0 <= i < self.keys().len() && self.keys()[i] == k;
                assert(self.entries@[i].0@ == k);
            }
        }
        assert forall|i: int| 0 <= i < self.keys().len() implies self@.contains_key(#[trigger] self.keys()[i]) by {
            assert(self.keys()[i] == self.entries@[i].0@);
        }
        assert(self.keys().no_duplicates()) by {
            assert forall|i: int, j: int|
                0 <= i < self.keys().len() && 0 <= j < self.keys().len() && i != j
                implies self.keys()[i] != self.keys()[j] by {
                if i < j {
                    assert(self.entries@[i].0@ != self.entries@[j].0@);
                } else {
                    assert(self.entries@[j].0@ != self.entries@[i].0@);
                }
            }
        }
        self.keys().unique_seq_to_set();
        assert(self.keys().to_set() =~= self@.dom());
    }

    pub fn new() -> (r: KeyMap<K, V>)
        ensures
            r.wf(),
            r@ == Map::<K::V, V>::empty(),
            r.keys() == Seq::<K::V>::empty(),
    {
        let r = KeyMap { entries: Vec::new(), map: Ghost(Map::empty()) };
        assert(r.keys() =~= Seq::<K::V>::empty());
        r
    }

    pub fn len(&self) -> (r: usize)
        requires
            self.wf(),
        ensures
            r == self.keys().len(),
    {
        self.entries.len()
    }

    /// Where `key` stands in the key order, if present.
    pub fn index_of(&self, key: &K) -> (r: Option<usize>)
        requires
            self.wf(),
        ensures
            r is None <==> !self@.contains_key(key@),
            r is Some ==> r->0 < self.keys().len() && self.keys()[r->0 as int] == key@,
    {
        let mut i: usize = 0;
        while i < self.entries.len()
            invariant
                self.wf(),
                i <= self.entries@.len(),
                forall|j: int| 0 <= j < i ==> self.entries@[j].0@ != key@,
            decreases self.entries@.len() - i,
        {
            if self.entries[i].0.key_eq(key) {
                return Some(i);
            }
            i = i + 1;
        }
        None
    }

    pub fn contains_key(&self, key: &K) -> (r: bool)
        requires
            self.wf(),
        ensures
            r == self@.contains_key(key@),
    {
        self.index_of(key).is_some()
    }

    pub fn get(&self, key: &K) -> (r: Option<&V>)
        requires
            self.wf(),
        ensures
            r is None <==> !self@.contains_key(key@),
            r is Some ==> *r->0 == self@[key@],
    {
        match self.index_of(key) {
            Some(i) => Some(&self.entries[i].1),
            None => None,
        }
    }

    /// The key and value at a place in the key order.
    pub fn entry_at(&self, i: usize) -> (r: (&K, &V))
        requires
            self.wf(),
            i < self.keys().len(),
        ensures
            r.0@ == self.keys()[i as int],
            *r.1 == self@[self.keys()[i as int]],
    {
        let e = &self.entries[i];
        (&e.0, &e.1)
    }

    pub fn insert(&mut self, key: K, value: V)
        requires
            old(self).wf(),
        ensures
            final(self).wf(),
            final(self)@ == old(self)@.insert(key@, value),
            old(self)@.contains_key(key@) ==> final(self).keys() == old(self).keys(),
            !old(self)@.contains_key(key@) ==> final(self).keys() == old(self).keys().push(key@),
    {
        let ghost k = key@;
        let ghost old_map = self.map@;
        match self.index_of(&key) {
            Some(i) => {
                self.entries.set(i, (key, value));
                self.map = Ghost(old_map.insert(k, value));
                assert(self.keys() =~= old(self).keys());
                assert forall|kk: K::V| #[trigger] self.map@.contains_key(kk) implies exists|j: int|
                    0 <= j < self.entries@.len() && self.entries@[j].0@ == kk by {
                    if kk == k {
                        assert(self.entries@[i as int].0@ == kk);
                    } else {
                        assert(old(self).map@.contains_key(kk));
                        let j = choose|j: int| 0 <= j < old(self).entries@.len() && old(self).entries@[j].0@ == kk;
                        assert(self.entries@[j].0@ == kk);
                    }
                }
            },
            None => {
                assert forall|j: int| 0 <= j < self.entries@.len() implies self.entries@[j].0@ != k by {
                    assert(old_map.contains_key(self.entries@[j].0@));
                }
                self.entries.push((key, value));
                self.map = Ghost(old_map.insert(k, value));
                assert(self.keys() =~= old(self).keys().push(k));
                assert forall|kk: K::V| #[trigger] self.map@.contains_key(kk) implies exists|i: int|
                    0 <= i < self.entries@.len() && self.entries@[i].0@ == kk by {
                    if kk == k {
                        assert(self.entries@[self.entries@.len() - 1].0@ == kk);
                    } else {
                        assert(old(self).map@.contains_key(kk));
                        let i = choose|i: int| 0 <= i < old(self).entries@.len() && old(self).entries@[i].0@ == kk;
                        assert(self.entries@[i].0@ == kk);
                    }
                }
            },
        }
    }

    pub fn remove(&mut self, key: &K)
        requires
            old(self).wf(),
        ensures
            final(self).wf(),
            final(self)@ == old(self)@.remove(key@),
            !old(self)@.contains_key(key@) ==> final(self).keys() == old(self).keys(),
            old(self)@.contains_key(key@) ==> exists|i: int|
                0 <= i < old(self).keys().len() && old(self).keys()[i] == key@
                    && final(self).keys() == old(self).keys().remove(i),
    {
        let ghost old_map = self.map@;
        match self.index_of(key) {
            Some(i) => {
                self.entries.remove(i);
                self.map = Ghost(old_map.remove(key@));
                assert(self.keys() =~= old(self).keys().remove(i as int));
                assert forall|j: int| 0 <= j < self.entries@.len() implies {
                    &&& self.map@.contains_key(#[trigger] self.entries@[j].0@)
                    &&& self.map@[self.entries@[j].0@] == self.entries@[j].1
                } by {
                    if j < i {
                        assert(self.entries@[j] == old(self).entries@[j]);
                    } else {
                        assert(self.entries@[j] == old(self).entries@[j + 1]);
                    }
                }
                assert forall|kk: K::V| #[trigger] self.map@.contains_key(kk) implies exists|j: int|
                    0 <= j < self.entries@.len() && self.entries@[j].0@ == kk by {
                    assert(old(self).map@.contains_key(kk));
                    let j = choose|j: int| 0 <= j < old(self).entries@.len() && old(self).entries@[j].0@ == kk;
                    if j < i {
                        assert(self.entries@[j].0@ == kk);
                    } else {
                        assert(self.entries@[j - 1].0@ == kk);
                    }
                }
            },
            None => {
                assert(self.map@ =~= old_map.remove(key@));
                assert(self.keys() =~= old(self).keys());
            },
        }
    }

    /// Exchanges the value under a present key with `value`.
    pub fn swap_value(&mut self, key: &K, value: &mut V)
        requires
            old(self).wf(),
            old(self)@.contains_key(key@),
        ensures
            final(self).wf(),
            final(self)@ == old(self)@.insert(key@, *old(value)),
            *final(value) == old(self)@[key@],
            final(self).keys() == old(self).keys(),
    {
        let ghost old_map = self.map@;
        let ghost k = key@;
        let i = match self.index_of(key) {
            Some(i) => i,
            None => {
                return;
            },
        };
        let (stored_key, mut stored) = self.entries.remove(i);
        core::mem::swap(&mut stored, value);
        self.entries.insert(i, (stored_key, stored));
        self.map = Ghost(old_map.insert(k, self.entries@[i as int].1));
        assert(self.entries@ =~= old(self).entries@.update(i as int, (self.entries@[i as int].0, self.entries@[i as int].1)));
        assert(self.keys() =~= old(self).keys());
        assert forall|kk: K::V| #[trigger] self.map@.contains_key(kk) implies exists|j: int|
            0 <= j < self.entries@.len() && self.entries@[j].0@ == kk by {
            let j = choose|j: int| 0 <= j < old(self).entries@.len() && old(self).entries@[j].0@ == kk;
            assert(self.entries@[j].0@ == kk);
        }
    }
}

} // verus!
