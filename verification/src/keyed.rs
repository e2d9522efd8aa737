//! A small map kept as a list of key/value pairs, keys compared by their
//! view. It holds the maps keyed by texts or byte strings: the front end's
//! form values and the in-memory database.

use vstd::prelude::*;

verus! {

/// A key that can be compared by its view.
pub trait MapKey: View + Sized {
    fn same_key(&self, other: &Self) -> (r: bool)
        ensures
            r == (self@ == other@),
    ;
}

impl MapKey for usize {
    fn same_key(&self, other: &Self) -> (r: bool) {
        *self == *other
    }
}

impl MapKey for String {
    fn same_key(&self, other: &Self) -> (r: bool) {
        *self == *other
    }
}

impl MapKey for Vec<u8> {
    fn same_key(&self, other: &Self) -> (r: bool) {
        bytes_equal(self.as_slice(), other.as_slice())
    }
}

impl MapKey for (String, String) {
    fn same_key(&self, other: &Self) -> (r: bool) {
        self.0 == other.0 && self.1 == other.1
    }
}

/// Byte-wise equality of two slices.
pub fn bytes_equal(a: &[u8], b: &[u8]) -> (r: bool)
    ensures
        r == (a@ == b@),
{
    if a.len() != b.len() {
        return false;
    }
    for i in 0..a.len()
        invariant
            a@.len() == b@.len(),
            forall|j: int| 0 <= j < i ==> a@[j] == b@[j],
    {
        if a[i] != b[i] {
            return false;
        }
    }
    assert(a@ =~= b@);
    true
}

/// A map from keys to values kept as a list of pairs in which no key occurs twice.
#[derive(Debug)]
pub struct KeyedList<K, V> {
    entries: Vec<(K, V)>,
}

impl<K: MapKey, V: View> KeyedList<K, V> {
    /// The pairs, in the order in which they are kept.
    pub closed spec fn pairs(&self) -> Seq<(K, V)> {
        self.entries@
    }

    /// No key occurs twice.
    pub closed spec fn wf(&self) -> bool {
        forall|i: int, j: int|
            0 <= i < self.entries@.len() && 0 <= j < self.entries@.len() && i != j
                ==> #[trigger] self.entries@[i].0@ != #[trigger] self.entries@[j].0@
    }

    pub closed spec fn holds(&self, k: K::V) -> bool {
        exists|i: int| 0 <= i < self.entries@.len() && #[trigger] self.entries@[i].0@ == k
    }

    pub closed spec fn slot(&self, k: K::V) -> int {
        choose|i: int| 0 <= i < self.entries@.len() && #[trigger] self.entries@[i].0@ == k
    }

    /// The map that the pairs stand for.
    pub closed spec fn as_map(&self) -> Map<K::V, V::V> {
        Map::new(|k: K::V| self.holds(k), |k: K::V| self.entries@[self.slot(k)].1@)
    }

    proof fn lemma_slot(&self, i: int)
        requires
            self.wf(),
            0 <= i < self.entries@.len(),
        ensures
            self.as_map().contains_key(self.entries@[i].0@),
            self.slot(self.entries@[i].0@) == i,
            self.as_map()[self.entries@[i].0@] == self.entries@[i].1@,
    {
        let k = self.entries@[i].0@;
        assert(self.holds(k));
        let j = self.slot(k);
        assert(self.entries@[j].0@ == k);
    }

    /// What the pairs say of the map: each pair is an entry of it, and each
    /// entry of it is a pair.
    pub proof fn lemma_pairs(&self)
        requires
            self.wf(),
        ensures
            forall|i: int|
                0 <= i < self.pairs().len() ==> self@.contains_key(#[trigger] self.pairs()[i].0@)
                    && self@[self.pairs()[i].0@] == self.pairs()[i].1@,
            forall|k: K::V|
                #[trigger] self@.contains_key(k) ==> exists|i: int|
                    0 <= i < self.pairs().len() && #[trigger] self.pairs()[i].0@ == k,
    {
        assert forall|i: int| 0 <= i < self.pairs().len() implies self@.contains_key(
            #[trigger] self.pairs()[i].0@,
        ) && self@[self.pairs()[i].0@] == self.pairs()[i].1@ by {
            self.lemma_slot(i);
        }
        assert forall|k: K::V| #[trigger] self@.contains_key(k) implies exists|i: int|
            0 <= i < self.pairs().len() && #[trigger] self.pairs()[i].0@ == k by {
            let j = self.slot(k);
            assert(self.pairs()[j].0@ == k);
        }
    }

    /// The empty map.
    pub fn new() -> (r: Self)
        ensures
            r.wf(),
            r@ == Map::<K::V, V::V>::empty(),
    {
        let r = KeyedList { entries: Vec::new() };
        assert(r@ =~= Map::<K::V, V::V>::empty());
        r
    }

    /// The pairs, to be walked in order.
    pub fn entries(&self) -> (r: &Vec<(K, V)>)
        ensures
            r@ == self.pairs(),
    {
        &self.entries
    }

    fn find(&self, k: &K) -> (r: Option<usize>)
        requires
            self.wf(),
        ensures
            match r {
                Some(i) => i < self.entries@.len() && self.entries@[i as int].0@ == k@,
                None => !self@.contains_key(k@),
            },
    {
        for i in 0..self.entries.len()
            invariant
                forall|j: int| 0 <= j < i ==> #[trigger] self.entries@[j].0@ != k@,
        {
            if self.entries[i].0.same_key(k) {
                return Some(i);
            }
        }
        None
    }

    /// The value stored under `k`, if any.
    pub fn get(&self, k: &K) -> (r: Option<&V>)
        requires
            self.wf(),
        ensures
            match r {
                Some(v) => self@.contains_key(k@) && v@ == self@[k@],
                None => !self@.contains_key(k@),
            },
    {
        match self.find(k) {
            Some(i) => {
                proof {
                    self.lemma_slot(i as int);
                }
                Some(&self.entries[i].1)
            },
            None => None,
        }
    }

    /// Stores `v` under `k`, replacing what was stored there.
    pub fn insert(&mut self, k: K, v: V)
        requires
            old(self).wf(),
        ensures
            final(self).wf(),
            final(self)@ == old(self)@.insert(k@, v@),
    {
        let ghost kv = k@;
        let ghost vv = v@;
        match self.find(&k) {
            Some(i) => {
                self.entries.set(i, (k, v));
                proof {
                    assert forall|a: int, b: int|
                        0 <= a < self.entries@.len() && 0 <= b < self.entries@.len() && a != b
                            implies #[trigger] self.entries@[a].0@
                        != #[trigger] self.entries@[b].0@ by {
                        assert(old(self).entries@[a].0@ == self.entries@[a].0@);
                        assert(old(self).entries@[b].0@ == self.entries@[b].0@);
                    }
                    assert(self.wf());
                    assert forall|key: K::V| #[trigger] self.holds(key) == old(self)@.insert(
                        kv,
                        vv,
                    ).contains_key(key) by {
                        if self.holds(key) {
                            let j = self.slot(key);
                            if j != i {
                                assert(old(self).entries@[j].0@ == key);
                            }
                        }
                        if old(self).holds(key) && key != kv {
                            let j = old(self).slot(key);
                            assert(j != i);
                            assert(self.entries@[j].0@ == key);
                        }
                        if key == kv {
                            assert(self.entries@[i as int].0@ == key);
                        }
                    }
                    assert forall|key: K::V| #[trigger] self.holds(key) implies self@[key]
                        == old(self)@.insert(kv, vv)[key] by {
                        let j = self.slot(key);
                        self.lemma_slot(j);
                        if key != kv {
                            old(self).lemma_slot(j);
                        }
                    }
                    assert(self@ =~= old(self)@.insert(kv, vv));
                }
            },
            None => {
                self.entries.push((k, v));
                proof {
                    let n = old(self).entries@.len() as int;
                    assert(self.entries@ == old(self).entries@.push((k, v)));
                    assert(self.entries@.len() == n + 1);
                    assert(self.entries@[n].0@ == kv);
                    assert(!old(self).holds(kv));
                    assert forall|a: int, b: int|
                        0 <= a < self.entries@.len() && 0 <= b < self.entries@.len() && a != b
                            implies #[trigger] self.entries@[a].0@
                        != #[trigger] self.entries@[b].0@ by {
                        if a < n && b < n {
                            assert(old(self).entries@[a] == self.entries@[a]);
                            assert(old(self).entries@[b] == self.entries@[b]);
                        } else if a < n {
                            assert(old(self).entries@[a] == self.entries@[a]);
                            assert(old(self).holds(self.entries@[a].0@));
                            assert(old(self)@.contains_key(self.entries@[a].0@));
                            assert(self.entries@[b].0@ == kv);
                        } else {
                            assert(old(self).entries@[b] == self.entries@[b]);
                            assert(old(self).holds(self.entries@[b].0@));
                            assert(old(self)@.contains_key(self.entries@[b].0@));
                            assert(self.entries@[a].0@ == kv);
                        }
                    }
                    assert(self.wf());
                    assert forall|key: K::V| #[trigger] self.holds(key) == old(self)@.insert(
                        kv,
                        vv,
                    ).contains_key(key) by {
                        if self.holds(key) {
                            let j = self.slot(key);
                            if j != n {
                                assert(old(self).entries@[j].0@ == key);
                            }
                        }
                        if old(self).holds(key) {
                            let j = old(self).slot(key);
                            assert(self.entries@[j].0@ == key);
                        }
                        if key == kv {
                            assert(self.entries@[n].0@ == key);
                        }
                    }
                    assert forall|key: K::V| #[trigger] self.holds(key) implies self@[key]
                        == old(self)@.insert(kv, vv)[key] by {
                        let j = self.slot(key);
                        self.lemma_slot(j);
                        if key != kv {
                            old(self).lemma_slot(j);
                        }
                    }
                    assert(self@ =~= old(self)@.insert(kv, vv));
                }
            },
        }
    }

    /// Takes the value stored under `k` out of the map.
    pub fn remove(&mut self, k: &K) -> (r: Option<V>)
        requires
            old(self).wf(),
        ensures
            final(self).wf(),
            final(self)@ == old(self)@.remove(k@),
            match r {
                Some(v) => old(self)@.contains_key(k@) && v@ == old(self)@[k@],
                None => !old(self)@.contains_key(k@),
            },
    {
        match self.find(k) {
            Some(i) => {
                proof {
                    self.lemma_slot(i as int);
                }
                let (_, v) = self.entries.remove(i);
                proof {
                    let kv = k@;
                    assert forall|a: int, b: int|
                        0 <= a < self.entries@.len() && 0 <= b < self.entries@.len() && a != b
                            implies #[trigger] self.entries@[a].0@
                        != #[trigger] self.entries@[b].0@ by {
                        let oa = if a < i { a } else { a + 1 };
                        let ob = if b < i { b } else { b + 1 };
                        assert(self.entries@[a] == old(self).entries@[oa]);
                        assert(self.entries@[b] == old(self).entries@[ob]);
                    }
                    assert forall|key: K::V| #[trigger] self.holds(key) == old(self)@.remove(
                        kv,
                    ).contains_key(key) by {
                        if self.holds(key) {
                            let j = self.slot(key);
                            let oj = if j < i { j } else { j + 1 };
                            assert(old(self).entries@[oj].0@ == key);
                        }
                        if old(self).holds(key) && key != kv {
                            let j = old(self).slot(key);
                            let nj = if j < i { j } else { j - 1 };
                            assert(self.entries@[nj].0@ == key);
                        }
                    }
                    assert forall|key: K::V| #[trigger] self.holds(key) implies self@[key]
                        == old(self)@.remove(kv)[key] by {
                        let j = self.slot(key);
                        self.lemma_slot(j);
                        let oj = if j < i { j } else { j + 1 };
                        old(self).lemma_slot(oj);
                    }
                    assert(self@ =~= old(self)@.remove(kv));
                }
                Some(v)
            },
            None => {
                assert(self@ =~= old(self)@.remove(k@));
                None
            },
        }
    }

    /// Empties the map.
    pub fn clear(&mut self)
        ensures
            final(self).wf(),
            final(self)@ == Map::<K::V, V::V>::empty(),
    {
        self.entries.clear();
        assert(self@ =~= Map::<K::V, V::V>::empty());
    }
}

impl<K: MapKey, V: View> View for KeyedList<K, V> {
    type V = Map<K::V, V::V>;

    open spec fn view(&self) -> Map<K::V, V::V> {
        self.as_map()
    }
}

} // verus!
