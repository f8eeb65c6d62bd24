//! Finite sets kept as strictly ascending sequences.

use vstd::prelude::*;
use crate::order::{Key, Rank, StrictOrder};

verus! {

/// Whether `s` ascends strictly in the order of `T`.
pub open spec fn ascending<T: StrictOrder>(s: Seq<T>) -> bool {
    forall|i: int, j: int| #![trigger s[i], s[j]] 0 <= i < j < s.len() ==> s[i].lt(s[j])
}

/// The set of the values in `s`.
pub open spec fn members<T>(s: Seq<T>) -> Set<T> {
    Set::new(|x: T| s.contains(x))
}

/// In an ascending sequence a value stands at one position only.
pub proof fn lemma_ascending_distinct<T: StrictOrder>(s: Seq<T>, i: int, j: int)
    requires
        ascending(s),
        0 <= i < s.len(),
        0 <= j < s.len(),
        s[i] == s[j],
    ensures
        i == j,
{
    T::lt_irreflexive(s[i]);
    if i < j {
        assert(s[i].lt(s[j]));
    } else if j < i {
        assert(s[j].lt(s[i]));
    }
}

/// Putting `x` between the values below it and the values above it keeps a
/// sequence ascending and adds `x` to its members.
pub proof fn lemma_ascending_insert<T: StrictOrder>(s: Seq<T>, p: int, x: T)
    requires
        ascending(s),
        0 <= p <= s.len(),
        forall|j: int| 0 <= j < p ==> (#[trigger] s[j]).lt(x),
        p < s.len() ==> x.lt(s[p]),
    ensures
        ascending(s.insert(p, x)),
        members(s.insert(p, x)) =~= members(s).insert(x),
{
    let t = s.insert(p, x);
    assert forall|j: int| p <= j < s.len() implies x.lt(#[trigger] s[j]) by {
        if j > p {
            assert(s[p].lt(s[j]));
            T::lt_transitive(x, s[p], s[j]);
        }
    }
    assert forall|i: int, j: int| #![trigger t[i], t[j]] 0 <= i < j < t.len() implies t[i].lt(
        t[j],
    ) by {
        let a = if i < p { i } else { i - 1 };
        let b = if j < p { j } else { j - 1 };
        if i == p {
            assert(t[j] == s[b]);
        } else if j == p {
            assert(t[i] == s[a]);
        } else {
            assert(t[i] == s[a] && t[j] == s[b]);
            assert(s[a].lt(s[b]));
        }
    }
    assert forall|y: T| members(t).contains(y) == members(s).insert(x).contains(y) by {
        if t.contains(y) {
            let i = choose|i: int| 0 <= i < t.len() && t[i] == y;
            if i < p {
                assert(s[i] == y);
            } else if i > p {
                assert(s[i - 1] == y);
            }
        }
        if s.contains(y) {
            let i = choose|i: int| 0 <= i < s.len() && s[i] == y;
            if i < p {
                assert(t[i] == y);
            } else {
                assert(t[i + 1] == y);
            }
        }
        if y == x {
            assert(t[p] == y);
        }
    }
}

/// Taking the value at `p` out keeps a sequence ascending and takes the
/// value out of its members.
pub proof fn lemma_ascending_remove<T: StrictOrder>(s: Seq<T>, p: int)
    requires
        ascending(s),
        0 <= p < s.len(),
    ensures
        ascending(s.remove(p)),
        members(s.remove(p)) =~= members(s).remove(s[p]),
{
    let t = s.remove(p);
    assert(t.len() == s.len() - 1);
    assert forall|i: int, j: int| #![trigger t[i], t[j]] 0 <= i < j < t.len() implies t[i].lt(
        t[j],
    ) by {
        let a = if i < p { i } else { i + 1 };
        let b = if j < p { j } else { j + 1 };
        assert(t[i] == s[a] && t[j] == s[b]);
        assert(s[a].lt(s[b]));
    }
    assert forall|y: T| members(t).contains(y) == members(s).remove(s[p]).contains(y) by {
        if t.contains(y) {
            let i = choose|i: int| 0 <= i < t.len() && t[i] == y;
            let a = if i < p { i } else { i + 1 };
            assert(s[a] == y);
            if y == s[p] {
                lemma_ascending_distinct(s, a, p);
            }
        }
        if s.contains(y) && y != s[p] {
            let i = choose|i: int| 0 <= i < s.len() && s[i] == y;
            if i < p {
                assert(t[i] == y);
            } else {
                assert(t[i - 1] == y);
            }
        }
    }
}

/// Two ascending sequences with the same members are the same sequence.
pub proof fn lemma_ascending_unique<T: StrictOrder>(s: Seq<T>, t: Seq<T>)
    requires
        ascending(s),
        ascending(t),
        members(s) == members(t),
    ensures
        s == t,
    decreases s.len(),
{
    if s.len() == 0 {
        if t.len() > 0 {
            assert(t.contains(t[0]));
            assert(members(t).contains(t[0]));
            assert(s.contains(t[0]));
        }
        assert(s =~= t);
    } else {
        let x = s.last();
        assert(s.contains(x));
        assert(members(s).contains(x));
        assert(t.contains(x));
        let k = choose|k: int| 0 <= k < t.len() && t[k] == x;
        if k < t.len() - 1 {
            let y = t.last();
            assert(t[k].lt(t[t.len() - 1]));
            assert(t.contains(y));
            assert(members(t).contains(y));
            assert(s.contains(y));
            let m = choose|m: int| 0 <= m < s.len() && s[m] == y;
            if m < s.len() - 1 {
                assert(s[m].lt(s[s.len() - 1]));
                T::lt_transitive(x, y, x);
            }
            T::lt_irreflexive(x);
        }
        lemma_ascending_remove(s, s.len() - 1);
        lemma_ascending_remove(t, t.len() - 1);
        assert(s.remove(s.len() - 1) =~= s.drop_last());
        assert(t.remove(t.len() - 1) =~= t.drop_last());
        lemma_ascending_unique(s.drop_last(), t.drop_last());
        assert(s =~= s.drop_last().push(x));
        assert(t =~= t.drop_last().push(x));
    }
}

/// The members of `s` in ascending order, where `s` is finite.
pub open spec fn elements<T: StrictOrder>(s: Set<T>) -> Seq<T> {
    choose|q: Seq<T>| ascending(q) && members(q) == s
}

/// The ascending sequence of the members of an ascending sequence is that sequence.
pub proof fn lemma_elements<T: StrictOrder>(q: Seq<T>)
    requires
        ascending(q),
    ensures
        elements(members(q)) == q,
{
    let e = elements(members(q));
    assert(ascending(e) && members(e) == members(q));
    lemma_ascending_unique(e, q);
}

/// A finite set of `T`, held in ascending order.
#[derive(Debug, PartialEq, Eq, PartialOrd, Ord, Hash)]
pub struct SortedSet<T: Key> {
    items: Vec<T>,
}

impl<T: Key> View for SortedSet<T> {
    type V = Set<T>;

    open spec fn view(&self) -> Set<T> {
        members(self.seq())
    }
}

impl<T: Key> SortedSet<T> {
    /// The values of the set, in ascending order.
    pub closed spec fn seq(&self) -> Seq<T> {
        self.items@
    }

    /// The values ascend strictly.
    pub open spec fn wf(&self) -> bool {
        ascending(self.seq())
    }

    /// The empty set.
    pub fn new() -> (r: Self)
        ensures
            r.wf(),
            r.seq() == Seq::<T>::empty(),
            r@ == Set::<T>::empty(),
    {
        let r = SortedSet { items: Vec::new() };
        assert(r@ =~= Set::<T>::empty());
        r
    }

    /// The number of values.
    pub fn len(&self) -> (n: usize)
        ensures
            n == self.seq().len(),
    {
        self.items.len()
    }

    /// Whether the set is empty.
    pub fn is_empty(&self) -> (r: bool)
        ensures
            r == (self.seq().len() == 0),
            r == (self@ == Set::<T>::empty()),
    {
        let r = self.items.len() == 0;
        proof {
            if r {
                assert(self@ =~= Set::<T>::empty());
            } else {
                assert(self.seq().contains(self.seq()[0]));
                assert(self@.contains(self.seq()[0]));
            }
        }
        r
    }

    /// The value at position `i` of the ascending order.
    pub fn get(&self, i: usize) -> (r: &T)
        requires
            i < self.seq().len(),
        ensures
            *r == self.seq()[i as int],
            self@.contains(*r),
    {
        assert(self.seq().contains(self.seq()[i as int]));
        &self.items[i]
    }

    /// Where `x` stands, or would stand, in the ascending order, and whether
    /// it is there.
    pub fn position(&self, x: &T) -> (r: (usize, bool))
        requires
            self.wf(),
        ensures
            r.0 <= self.seq().len(),
            forall|j: int| 0 <= j < r.0 ==> (#[trigger] self.seq()[j]).lt(*x),
            r.1 == self@.contains(*x),
            r.1 ==> r.0 < self.seq().len() && self.seq()[r.0 as int] == *x,
            !r.1 && r.0 < self.seq().len() ==> x.lt(self.seq()[r.0 as int]),
    {
        let mut i: usize = 0;
        while i < self.items.len()
            invariant
                i <= self.items.len(),
                self.wf(),
                forall|j: int| 0 <= j < i ==> (#[trigger] self.seq()[j]).lt(*x),
            decreases self.items.len() - i,
        {
            match self.items[i].order(x) {
                Rank::Below => {},
                Rank::Same => {
                    assert(self.seq().contains(*x));
                    return (i, true);
                },
                Rank::Above => {
                    proof {
                        self.lemma_absent(*x, i as int);
                    }
                    return (i, false);
                },
            }
            i += 1;
        }
        proof {
            self.lemma_absent(*x, i as int);
        }
        (i, false)
    }

    proof fn lemma_absent(&self, x: T, p: int)
        requires
            self.wf(),
            0 <= p <= self.seq().len(),
            forall|j: int| 0 <= j < p ==> (#[trigger] self.seq()[j]).lt(x),
            p < self.seq().len() ==> x.lt(self.seq()[p]),
        ensures
            !self@.contains(x),
    {
        let s = self.seq();
        if s.contains(x) {
            let k = choose|k: int| 0 <= k < s.len() && s[k] == x;
            T::lt_irreflexive(x);
            if k < p {
                assert(s[k].lt(x));
            } else if k > p {
                assert(s[p].lt(s[k]));
                T::lt_transitive(x, s[p], x);
            }
        }
    }

    /// Whether `x` is in the set.
    pub fn contains(&self, x: &T) -> (r: bool)
        requires
            self.wf(),
        ensures
            r == self@.contains(*x),
    {
        self.position(x).1
    }

    /// Adds `x`; says whether it was new.
    pub fn insert(&mut self, x: T) -> (r: bool)
        requires
            old(self).wf(),
        ensures
            final(self).wf(),
            final(self)@ == old(self)@.insert(x),
            r == !old(self)@.contains(x),
    {
        let (p, found) = self.position(&x);
        if found {
            assert(self@ =~= self@.insert(x));
            false
        } else {
            proof {
                lemma_ascending_insert(self.seq(), p as int, x);
            }
            self.items.insert(p, x);
            true
        }
    }

    /// Takes `x` out; says whether it was there.
    pub fn remove(&mut self, x: &T) -> (r: bool)
        requires
            old(self).wf(),
        ensures
            final(self).wf(),
            final(self)@ == old(self)@.remove(*x),
            r == old(self)@.contains(*x),
    {
        let (p, found) = self.position(x);
        if found {
            proof {
                lemma_ascending_remove(self.seq(), p as int);
            }
            self.items.remove(p);
            true
        } else {
            assert(self@ =~= self@.remove(*x));
            false
        }
    }

    /// Adds each of `items`.
    pub fn extend(&mut self, items: &Vec<T>)
        requires
            old(self).wf(),
        ensures
            final(self).wf(),
            final(self)@ == old(self)@.union(members(items@)),
    {
        let ghost before = self@;
        let mut i: usize = 0;
        while i < items.len()
            invariant
                i <= items@.len(),
                self.wf(),
                forall|x: T|
                    self@.contains(x) == (before.contains(x) || items@.subrange(
                        0,
                        i as int,
                    ).contains(x)),
            decreases items@.len() - i,
        {
            let ghost prev = self@;
            let ghost done = items@.subrange(0, i as int);
            let ghost next = items@.subrange(0, i + 1);
            self.insert(items[i].dup());
            proof {
                assert forall|x: T| self@.contains(x) == (before.contains(x) || next.contains(x)) by {
                    assert(prev.contains(x) == (before.contains(x) || done.contains(x)));
                    if next.contains(x) {
                        let m = choose|m: int| 0 <= m < next.len() && next[m] == x;
                        if m < i {
                            assert(done[m] == x);
                        }
                    }
                    if done.contains(x) {
                        let m = choose|m: int| 0 <= m < done.len() && done[m] == x;
                        assert(next[m] == x);
                    }
                    if x == items@[i as int] {
                        assert(next[i as int] == x);
                    }
                }
            }
            i += 1;
        }
        proof {
            assert(items@.subrange(0, i as int) =~= items@);
            assert forall|x: T| self@.contains(x) == before.union(members(items@)).contains(x) by {
                assert(self@.contains(x) == (before.contains(x) || items@.contains(x)));
            }
            assert(self@ =~= before.union(members(items@)));
        }
    }

    /// Adds each member of `other`.
    pub fn union_with(&mut self, other: &SortedSet<T>)
        requires
            old(self).wf(),
        ensures
            final(self).wf(),
            final(self)@ == old(self)@.union(other@),
    {
        let items = other.to_vec();
        self.extend(&items);
    }

    /// Takes out each member of `other`.
    pub fn remove_all(&mut self, other: &SortedSet<T>)
        requires
            old(self).wf(),
        ensures
            final(self).wf(),
            final(self)@ == old(self)@.difference(other@),
    {
        let ghost before = self@;
        let mut i: usize = 0;
        while i < other.len()
            invariant
                i <= other.seq().len(),
                self.wf(),
                forall|x: T|
                    self@.contains(x) == (before.contains(x) && !other.seq().subrange(
                        0,
                        i as int,
                    ).contains(x)),
            decreases other.seq().len() - i,
        {
            let ghost prev = self@;
            let ghost done = other.seq().subrange(0, i as int);
            let ghost next = other.seq().subrange(0, i + 1);
            self.remove(other.get(i));
            proof {
                assert forall|x: T| self@.contains(x) == (before.contains(x) && !next.contains(x)) by {
                    assert(prev.contains(x) == (before.contains(x) && !done.contains(x)));
                    if next.contains(x) {
                        let m = choose|m: int| 0 <= m < next.len() && next[m] == x;
                        if m < i {
                            assert(done[m] == x);
                        }
                    }
                    if done.contains(x) {
                        let m = choose|m: int| 0 <= m < done.len() && done[m] == x;
                        assert(next[m] == x);
                    }
                    if x == other.seq()[i as int] {
                        assert(next[i as int] == x);
                    }
                }
            }
            i += 1;
        }
        proof {
            assert(other.seq().subrange(0, i as int) =~= other.seq());
            assert forall|x: T| self@.contains(x) == before.difference(other@).contains(x) by {
                assert(other@.contains(x) == other.seq().contains(x));
                assert(self@.contains(x) == (before.contains(x) && !other.seq().contains(x)));
            }
            assert(self@ =~= before.difference(other@));
        }
    }

    /// The members of this set that are members of `other` too.
    pub fn intersection(&self, other: &SortedSet<T>) -> (r: SortedSet<T>)
        requires
            self.wf(),
            other.wf(),
        ensures
            r.wf(),
            r@ == self@.intersect(other@),
    {
        let mut out: SortedSet<T> = SortedSet::new();
        let mut i: usize = 0;
        while i < self.len()
            invariant
                i <= self.seq().len(),
                self.wf(),
                other.wf(),
                out.wf(),
                forall|x: T|
                    out@.contains(x) == (self.seq().subrange(0, i as int).contains(x)
                        && other@.contains(x)),
            decreases self.seq().len() - i,
        {
            let ghost prev = out@;
            let ghost done = self.seq().subrange(0, i as int);
            let ghost next = self.seq().subrange(0, i + 1);
            let x = self.get(i);
            if other.contains(x) {
                out.insert(x.dup());
            }
            proof {
                assert forall|y: T| out@.contains(y) == (next.contains(y) && other@.contains(y)) by {
                    assert(prev.contains(y) == (done.contains(y) && other@.contains(y)));
                    if next.contains(y) {
                        let m = choose|m: int| 0 <= m < next.len() && next[m] == y;
                        if m < i {
                            assert(done[m] == y);
                        }
                    }
                    if done.contains(y) {
                        let m = choose|m: int| 0 <= m < done.len() && done[m] == y;
                        assert(next[m] == y);
                    }
                    if y == self.seq()[i as int] {
                        assert(next[i as int] == y);
                    }
                }
            }
            i += 1;
        }
        proof {
            assert(self.seq().subrange(0, i as int) =~= self.seq());
            assert forall|x: T| out@.contains(x) == self@.intersect(other@).contains(x) by {
                assert(self@.contains(x) == self.seq().contains(x));
                assert(out@.contains(x) == (self.seq().contains(x) && other@.contains(x)));
            }
            assert(out@ =~= self@.intersect(other@));
        }
        out
    }

    /// Takes every value out.
    pub fn clear(&mut self)
        ensures
            final(self).wf(),
            final(self).seq() == Seq::<T>::empty(),
            final(self)@ == Set::<T>::empty(),
    {
        self.items.clear();
        assert(self@ =~= Set::<T>::empty());
    }

    /// An exact copy of the set.
    pub fn dup(&self) -> (r: Self)
        ensures
            r.seq() == self.seq(),
            r@ == self@,
            r.wf() == self.wf(),
    {
        let mut items: Vec<T> = Vec::new();
        let mut i: usize = 0;
        while i < self.items.len()
            invariant
                i <= self.items.len(),
                items@ == self.items@.subrange(0, i as int),
            decreases self.items.len() - i,
        {
            items.push(self.items[i].dup());
            assert(items@ =~= self.items@.subrange(0, i + 1));
            i += 1;
        }
        assert(items@ =~= self.items@);
        SortedSet { items }
    }

    /// The values of the set, in ascending order.
    pub fn to_vec(&self) -> (r: Vec<T>)
        ensures
            r@ == self.seq(),
    {
        self.dup().items
    }

    /// The set's sequence is the ascending sequence of its members.
    pub proof fn lemma_seq(&self)
        requires
            self.wf(),
        ensures
            elements(self@) == self.seq(),
    {
        lemma_elements(self.seq());
    }

    /// Sets with the same members are held the same way.
    pub proof fn lemma_canonical(&self, other: &Self)
        requires
            self.wf(),
            other.wf(),
            self@ == other@,
        ensures
            self.seq() == other.seq(),
    {
        lemma_ascending_unique(self.seq(), other.seq());
    }
}

impl<T: Key> Clone for SortedSet<T> {
    fn clone(&self) -> (r: Self)
        ensures
            r.seq() == self.seq(),
            r@ == self@,
            r.wf() == self.wf(),
    {
        self.dup()
    }
}

} // verus!
