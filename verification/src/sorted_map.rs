//! Finite maps kept as sequences of entries in strictly ascending key order.

use vstd::prelude::*;
use crate::order::{Key, Rank, StrictOrder};
use crate::sorted_set::{
    ascending,
    lemma_ascending_distinct,
    lemma_ascending_insert,
    lemma_ascending_remove,
    lemma_ascending_unique,
    members,
};

verus! {

/// The position of `k` in `keys`.
pub open spec fn slot<K>(keys: Seq<K>, k: K) -> int {
    choose|i: int| 0 <= i < keys.len() && keys[i] == k
}

/// The map that takes each of `keys` to the value at its position in `vals`.
pub open spec fn entries<K, V>(keys: Seq<K>, vals: Seq<V>) -> Map<K, V> {
    Map::new(|k: K| keys.contains(k), |k: K| vals[slot(keys, k)])
}

/// Where the keys ascend, the key at position `i` is mapped to the value at `i`.
pub proof fn lemma_entries_at<K: StrictOrder, V>(keys: Seq<K>, vals: Seq<V>, i: int)
    requires
        ascending(keys),
        0 <= i < keys.len(),
    ensures
        keys.contains(keys[i]),
        entries(keys, vals).contains_key(keys[i]),
        slot(keys, keys[i]) == i,
        entries(keys, vals)[keys[i]] == vals[i],
{
    assert(keys.contains(keys[i]));
    let j = slot(keys, keys[i]);
    lemma_ascending_distinct(keys, i, j);
}

/// A finite map from `K` to `V`, held in ascending key order.
#[derive(Debug, PartialEq, Eq, PartialOrd, Ord, Hash)]
pub struct SortedMap<K: Key, V> {
    keys: Vec<K>,
    vals: Vec<V>,
}

impl<K: Key, V> View for SortedMap<K, V> {
    type V = Map<K, V>;

    open spec fn view(&self) -> Map<K, V> {
        entries(self.keys(), self.vals())
    }
}

impl<K: Key, V> SortedMap<K, V> {
    /// The keys, in ascending order.
    pub closed spec fn keys(&self) -> Seq<K> {
        self.keys@
    }

    /// The values, each at the position of its key.
    pub closed spec fn vals(&self) -> Seq<V> {
        self.vals@
    }

    /// The keys ascend strictly, and each has a value.
    pub open spec fn wf(&self) -> bool {
        &&& ascending(self.keys())
        &&& self.keys().len() == self.vals().len()
    }

    /// The key at position `i` is mapped to the value at position `i`.
    pub proof fn lemma_at(&self, i: int)
        requires
            self.wf(),
            0 <= i < self.keys().len(),
        ensures
            self@.contains_key(self.keys()[i]),
            self@[self.keys()[i]] == self.vals()[i],
            slot(self.keys(), self.keys()[i]) == i,
    {
        lemma_entries_at(self.keys(), self.vals(), i);
    }

    /// Every key of the map stands at a position.
    pub proof fn lemma_key(&self, k: K)
        requires
            self.wf(),
            self@.contains_key(k),
        ensures
            0 <= slot(self.keys(), k) < self.keys().len(),
            self.keys()[slot(self.keys(), k)] == k,
            self@[k] == self.vals()[slot(self.keys(), k)],
    {
    }

    /// The empty map.
    pub fn new() -> (r: Self)
        ensures
            r.wf(),
            r.keys() == Seq::<K>::empty(),
            r.vals() == Seq::<V>::empty(),
            r@ == Map::<K, V>::empty(),
    {
        let r = SortedMap { keys: Vec::new(), vals: Vec::new() };
        assert(r@ =~= Map::<K, V>::empty());
        r
    }

    /// The map of the keys `keys` and, position by position, the values `vals`.
    pub fn from_parts(keys: Vec<K>, vals: Vec<V>) -> (r: Self)
        ensures
            r.keys() == keys@,
            r.vals() == vals@,
    {
        SortedMap { keys, vals }
    }

    /// The number of values held.
    pub fn vals_len(&self) -> (n: usize)
        ensures
            n == self.vals().len(),
    {
        self.vals.len()
    }

    /// The number of entries.
    pub fn len(&self) -> (n: usize)
        ensures
            n == self.keys().len(),
    {
        self.keys.len()
    }

    /// Whether the map is empty.
    pub fn is_empty(&self) -> (r: bool)
        ensures
            r == (self.keys().len() == 0),
    {
        self.keys.len() == 0
    }

    /// The key at position `i` of the ascending order.
    pub fn key_at(&self, i: usize) -> (r: &K)
        requires
            i < self.keys().len(),
        ensures
            *r == self.keys()[i as int],
    {
        &self.keys[i]
    }

    /// The value of the key at position `i`.
    pub fn value_at(&self, i: usize) -> (r: &V)
        requires
            i < self.vals().len(),
        ensures
            *r == self.vals()[i as int],
    {
        &self.vals[i]
    }

    /// Where `k` stands, or would stand, among the keys, and whether it is there.
    pub fn position(&self, k: &K) -> (r: (usize, bool))
        requires
            self.wf(),
        ensures
            r.0 <= self.keys().len(),
            forall|j: int| 0 <= j < r.0 ==> (#[trigger] self.keys()[j]).lt(*k),
            r.1 == self@.contains_key(*k),
            r.1 ==> r.0 < self.keys().len() && self.keys()[r.0 as int] == *k,
            !r.1 && r.0 < self.keys().len() ==> k.lt(self.keys()[r.0 as int]),
    {
        let mut i: usize = 0;
        while i < self.keys.len()
            invariant
                i <= self.keys.len(),
                self.wf(),
                forall|j: int| 0 <= j < i ==> (#[trigger] self.keys()[j]).lt(*k),
            decreases self.keys.len() - i,
        {
            match self.keys[i].order(k) {
                Rank::Below => {},
                Rank::Same => {
                    assert(self.keys().contains(*k));
                    return (i, true);
                },
                Rank::Above => {
                    proof {
                        self.lemma_absent(*k, i as int);
                    }
                    return (i, false);
                },
            }
            i += 1;
        }
        proof {
            self.lemma_absent(*k, i as int);
        }
        (i, false)
    }

    proof fn lemma_absent(&self, x: K, p: int)
        requires
            self.wf(),
            0 <= p <= self.keys().len(),
            forall|j: int| 0 <= j < p ==> (#[trigger] self.keys()[j]).lt(x),
            p < self.keys().len() ==> x.lt(self.keys()[p]),
        ensures
            !self@.contains_key(x),
    {
        let s = self.keys();
        if s.contains(x) {
            let k = choose|k: int| 0 <= k < s.len() && s[k] == x;
            K::lt_irreflexive(x);
            if k < p {
                assert(s[k].lt(x));
            } else if k > p {
                assert(s[p].lt(s[k]));
                K::lt_transitive(x, s[p], x);
            }
        }
    }

    /// Whether `k` has a value.
    pub fn contains_key(&self, k: &K) -> (r: bool)
        requires
            self.wf(),
        ensures
            r == self@.contains_key(*k),
    {
        self.position(k).1
    }

    /// The value of `k`, if it has one.
    pub fn get(&self, k: &K) -> (r: Option<&V>)
        requires
            self.wf(),
        ensures
            match r {
                Some(v) => self@.contains_key(*k) && *v == self@[*k],
                None => !self@.contains_key(*k),
            },
    {
        let (p, found) = self.position(k);
        if found {
            proof {
                self.lemma_at(p as int);
            }
            Some(&self.vals[p])
        } else {
            None
        }
    }

    /// Gives the key at position `i` the value `v`.
    pub fn set_at(&mut self, i: usize, v: V)
        requires
            old(self).wf(),
            i < old(self).keys().len(),
        ensures
            final(self).wf(),
            final(self).keys() == old(self).keys(),
            final(self).vals() == old(self).vals().update(i as int, v),
            final(self)@ == old(self)@.insert(old(self).keys()[i as int], v),
    {
        let ghost before = *self;
        self.vals.set(i, v);
        proof {
            let key = before.keys()[i as int];
            assert forall|k: K| self@.contains_key(k) == before@.insert(key, v).contains_key(
                k,
            ) by {
                before.lemma_at(i as int);
            }
            assert forall|k: K| self@.contains_key(k) implies self@[k] == before@.insert(key, v)[k] by {
                let j = slot(self.keys(), k);
                self.lemma_at(j);
                before.lemma_at(j);
                before.lemma_at(i as int);
            }
            assert(self@ =~= before@.insert(key, v));
        }
    }

    /// Gives `k` the value `v`, in place of the one it had, if any.
    pub fn insert(&mut self, k: K, v: V)
        requires
            old(self).wf(),
        ensures
            final(self).wf(),
            final(self)@ == old(self)@.insert(k, v),
    {
        let (p, found) = self.position(&k);
        if found {
            self.set_at(p, v);
        } else {
            self.insert_at(p, k, v);
        }
    }

    /// Puts the entry of `k` and `v` at position `p`, where `k` belongs.
    pub fn insert_at(&mut self, p: usize, k: K, v: V)
        requires
            old(self).wf(),
            p <= old(self).keys().len(),
            forall|j: int| 0 <= j < p ==> (#[trigger] old(self).keys()[j]).lt(k),
            p < old(self).keys().len() ==> k.lt(old(self).keys()[p as int]),
        ensures
            final(self).wf(),
            final(self).keys() == old(self).keys().insert(p as int, k),
            final(self).vals() == old(self).vals().insert(p as int, v),
            final(self)@ == old(self)@.insert(k, v),
    {
        let ghost before = *self;
        proof {
            lemma_ascending_insert(self.keys(), p as int, k);
        }
        self.keys.insert(p, k);
        self.vals.insert(p, v);
        proof {
            assert forall|x: K| self@.contains_key(x) == before@.insert(k, v).contains_key(x) by {
                assert(members(self.keys()).contains(x) == members(before.keys()).insert(
                    k,
                ).contains(x));
            }
            assert forall|x: K| self@.contains_key(x) implies self@[x] == before@.insert(k, v)[x] by {
                let j = slot(self.keys(), x);
                self.lemma_at(j);
                self.lemma_at(p as int);
                if x == k {
                    lemma_ascending_distinct(self.keys(), j, p as int);
                } else if j < p {
                    before.lemma_at(j);
                } else if j > p {
                    before.lemma_at(j - 1);
                }
            }
            assert(self@ =~= before@.insert(k, v));
        }
    }

    /// Takes the entry at position `i` out and returns its value.
    pub fn remove_at(&mut self, i: usize) -> (r: V)
        requires
            old(self).wf(),
            i < old(self).keys().len(),
        ensures
            final(self).wf(),
            final(self).keys() == old(self).keys().remove(i as int),
            final(self).vals() == old(self).vals().remove(i as int),
            final(self)@ == old(self)@.remove(old(self).keys()[i as int]),
            r == old(self).vals()[i as int],
    {
        let ghost before = *self;
        proof {
            lemma_ascending_remove(self.keys(), i as int);
        }
        self.keys.remove(i);
        let r = self.vals.remove(i);
        proof {
            let key = before.keys()[i as int];
            assert forall|x: K| self@.contains_key(x) == before@.remove(key).contains_key(x) by {
                assert(members(self.keys()).contains(x) == members(before.keys()).remove(
                    key,
                ).contains(x));
            }
            assert forall|x: K| self@.contains_key(x) implies self@[x] == before@.remove(key)[x] by {
                let j = slot(self.keys(), x);
                self.lemma_at(j);
                if j < i {
                    before.lemma_at(j);
                } else {
                    before.lemma_at(j + 1);
                }
            }
            assert(self@ =~= before@.remove(key));
        }
        r
    }

    /// Takes `k` out and returns the value it had, if any.
    pub fn remove(&mut self, k: &K) -> (r: Option<V>)
        requires
            old(self).wf(),
        ensures
            final(self).wf(),
            final(self)@ == old(self)@.remove(*k),
            match r {
                Some(v) => old(self)@.contains_key(*k) && v == old(self)@[*k],
                None => !old(self)@.contains_key(*k),
            },
    {
        let (p, found) = self.position(k);
        if found {
            proof {
                self.lemma_at(p as int);
            }
            Some(self.remove_at(p))
        } else {
            assert(self@ =~= self@.remove(*k));
            None
        }
    }

    /// Maps with the same keys are held in the same order.
    pub proof fn lemma_canonical(&self, other: &Self)
        requires
            self.wf(),
            other.wf(),
            self@.dom() == other@.dom(),
        ensures
            self.keys() == other.keys(),
    {
        assert forall|k: K| members(self.keys()).contains(k) == members(other.keys()).contains(
            k,
        ) by {
            assert(self@.dom().contains(k) == other@.dom().contains(k));
        }
        assert(members(self.keys()) =~= members(other.keys()));
        lemma_ascending_unique(self.keys(), other.keys());
    }
}

} // verus!
