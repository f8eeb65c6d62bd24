//! References to a field of a variable, and the widening sets of them.

use vstd::prelude::*;
use crate::order::{Key, Rank, StrictOrder};
use crate::sorted_set::{SortedSet, ascending, elements, members};
use crate::var::{Var, VarPredicate, var_lt};

verus! {

/// A variable together with an offset into it; `None` is an unknown offset.
#[derive(Debug, PartialEq, Eq, PartialOrd, Ord, Hash)]
pub struct VarRef {
    pub var: Var,
    pub offset: Option<u64>,
}

/// The strict order on offsets: the unknown offset first, then by number.
pub open spec fn offset_lt(a: Option<u64>, b: Option<u64>) -> bool {
    match (a, b) {
        (None, Some(_)) => true,
        (Some(x), Some(y)) => x < y,
        _ => false,
    }
}

/// The strict order on references: by variable, then by offset.
pub open spec fn var_ref_lt(a: VarRef, b: VarRef) -> bool {
    var_lt(a.var, b.var) || (a.var == b.var && offset_lt(a.offset, b.offset))
}

impl VarRef {
    /// Whether the reference is to a free witness.
    pub fn is_freed(&self) -> (r: bool)
        ensures
            r == (self.var is Freed),
    {
        self.var.is_freed()
    }

    /// An exact copy of the reference.
    pub fn copy(&self) -> (r: VarRef)
        ensures
            r == *self,
    {
        VarRef { var: self.var.copy(), offset: self.offset }
    }

    /// The reference to the same variable at an unknown offset.
    pub fn unknown(&self) -> (r: VarRef)
        ensures
            r == (VarRef { var: self.var, offset: None }),
    {
        VarRef { var: self.var.copy(), offset: None }
    }

    /// Whether two references are equal.
    pub fn same(&self, other: &VarRef) -> (r: bool)
        ensures
            r == (*self == *other),
    {
        match self.rank(other) {
            Rank::Same => true,
            _ => false,
        }
    }

    /// Places `self` against `other` in the order `var_ref_lt`.
    pub fn rank(&self, other: &VarRef) -> (r: Rank)
        ensures
            (r == Rank::Below) == var_ref_lt(*self, *other),
            (r == Rank::Same) == (*self == *other),
            (r == Rank::Above) == var_ref_lt(*other, *self),
    {
        proof {
            Var::lt_irreflexive(self.var);
            if var_lt(self.var, other.var) && var_lt(other.var, self.var) {
                Var::lt_transitive(self.var, other.var, self.var);
            }
        }
        match self.var.rank(&other.var) {
            Rank::Same => match (self.offset, other.offset) {
                (None, None) => Rank::Same,
                (None, Some(_)) => Rank::Below,
                (Some(_), None) => Rank::Above,
                (Some(x), Some(y)) => {
                    if x < y {
                        Rank::Below
                    } else if x == y {
                        Rank::Same
                    } else {
                        Rank::Above
                    }
                },
            },
            r => r,
        }
    }
}

impl Clone for VarRef {
    fn clone(&self) -> (r: VarRef)
        ensures
            r == *self,
    {
        self.copy()
    }
}

impl StrictOrder for VarRef {
    open spec fn lt(self, other: VarRef) -> bool {
        var_ref_lt(self, other)
    }

    proof fn lt_irreflexive(x: VarRef) {
        assert(x.lt(x) == var_ref_lt(x, x));
        Var::lt_irreflexive(x.var);
    }

    proof fn lt_transitive(x: VarRef, y: VarRef, z: VarRef) {
        assert(x.lt(y) == var_ref_lt(x, y) && y.lt(z) == var_ref_lt(y, z) && x.lt(z)
            == var_ref_lt(x, z));
        if var_lt(x.var, y.var) && var_lt(y.var, z.var) {
            Var::lt_transitive(x.var, y.var, z.var);
        }
    }

    proof fn lt_total(x: VarRef, y: VarRef) {
        assert(x.lt(y) == var_ref_lt(x, y) && y.lt(x) == var_ref_lt(y, x));
        Var::lt_total(x.var, y.var);
    }
}

impl Key for VarRef {
    fn order(&self, other: &VarRef) -> (r: Rank) {
        self.rank(other)
    }

    fn dup(&self) -> (r: VarRef) {
        self.copy()
    }
}

/// Whether `s` holds three different references to `v`.
pub open spec fn crowded(s: Set<VarRef>, v: Var) -> bool {
    exists|a: VarRef, b: VarRef, c: VarRef|
        #![trigger s.contains(a), s.contains(b), s.contains(c)]
        s.contains(a) && s.contains(b) && s.contains(c) && a.var == v && b.var == v && c.var == v
            && a != b && a != c && b != c
}

/// No variable is referred to at more than three offsets.
pub open spec fn bounded(s: Set<VarRef>) -> bool {
    forall|a: VarRef, b: VarRef, c: VarRef, d: VarRef|
        #![trigger s.contains(a), s.contains(b), s.contains(c), s.contains(d)]
        s.contains(a) && s.contains(b) && s.contains(c) && s.contains(d) && a.var == b.var && a.var
            == c.var && a.var == d.var ==> a == b || a == c || a == d || b == c || b == d || c == d
}

/// A variable referred to at an unknown offset is referred to at no other.
pub open spec fn exclusive(s: Set<VarRef>) -> bool {
    forall|a: VarRef, b: VarRef|
        #![trigger s.contains(a), s.contains(b)]
        s.contains(a) && s.contains(b) && a.var == b.var && a.offset is None ==> a == b
}

/// The set after `vr` is added with widening: nothing changes where `vr` or
/// the unknown offset of its variable is there already; an unknown offset,
/// or a fourth offset of one variable, replaces all references to the
/// variable by the one at the unknown offset; otherwise `vr` joins the set.
pub open spec fn widen_insert(s: Set<VarRef>, vr: VarRef) -> Set<VarRef> {
    let unknown = VarRef { var: vr.var, offset: None };
    if s.contains(vr) || s.contains(unknown) {
        s
    } else if vr.offset is None || crowded(s, vr.var) {
        s.filter(|x: VarRef| x.var != vr.var).insert(unknown)
    } else {
        s.insert(vr)
    }
}

/// The set after each of `items` is added with widening, first to last.
pub open spec fn widen_extend(s: Set<VarRef>, items: Seq<VarRef>) -> Set<VarRef>
    decreases items.len(),
{
    if items.len() == 0 {
        s
    } else {
        widen_extend(widen_insert(s, items[0]), items.drop_first())
    }
}

/// The set after the members of `t` are added with widening, in ascending order.
pub open spec fn widen_union(s: Set<VarRef>, t: Set<VarRef>) -> Set<VarRef> {
    widen_extend(s, elements(t))
}

/// The references to `v` in `s`, in ascending order.
pub open spec fn refs_of(s: Set<VarRef>, v: Var) -> Seq<VarRef> {
    elements(s.filter(|x: VarRef| x.var == v))
}

/// The references `items`, each turned to the variable `to` at its offset.
pub open spec fn turned(items: Seq<VarRef>, to: Var) -> Seq<VarRef> {
    items.map_values(|x: VarRef| VarRef { var: to, offset: x.offset })
}

/// The set in which every reference to `from` has become one to `to`, added
/// with widening in ascending order of the references replaced.
pub open spec fn retargeted(s: Set<VarRef>, from: Var, to: Var) -> Set<VarRef> {
    widen_extend(s.filter(|x: VarRef| x.var != from), turned(refs_of(s, from), to))
}

/// The set in which every reference to `from` is joined by one to `to`, added
/// with widening in ascending order of the references copied.
pub open spec fn doubled(s: Set<VarRef>, from: Var, to: Var) -> Set<VarRef> {
    widen_extend(s, turned(refs_of(s, from), to))
}

/// The variables that the references in `s` are to.
pub open spec fn vars_of(s: Set<VarRef>) -> Set<Var> {
    Set::new(|v: Var| exists|x: VarRef| s.contains(x) && x.var == v)
}

/// Adding with widening brings in nothing but the reference added or the
/// unknown offset of its variable.
pub proof fn lemma_widen_insert_adds(s: Set<VarRef>, vr: VarRef, x: VarRef)
    requires
        widen_insert(s, vr).contains(x),
    ensures
        s.contains(x) || x.var == vr.var,
{
}

/// Adding a sequence with widening brings in references to the variables of
/// the sequence only.
pub proof fn lemma_widen_extend_adds(s: Set<VarRef>, items: Seq<VarRef>, x: VarRef)
    requires
        widen_extend(s, items).contains(x),
    ensures
        s.contains(x) || exists|i: int| 0 <= i < items.len() && x.var == (#[trigger] items[i]).var,
    decreases items.len(),
{
    if items.len() > 0 {
        let rest = items.drop_first();
        lemma_widen_extend_adds(widen_insert(s, items[0]), rest, x);
        if widen_insert(s, items[0]).contains(x) {
            lemma_widen_insert_adds(s, items[0], x);
            if !s.contains(x) {
                assert(x.var == items[0].var);
            }
        } else {
            let i = choose|i: int| 0 <= i < rest.len() && x.var == (#[trigger] rest[i]).var;
            assert(rest[i] == items[i + 1]);
        }
    }
}

/// No reference to `from` is left in a set retargeted to another variable.
pub proof fn lemma_retargeted_clean(s: Set<VarRef>, from: Var, to: Var, x: VarRef)
    requires
        from != to,
        retargeted(s, from, to).contains(x),
    ensures
        x.var != from,
{
    let items = turned(refs_of(s, from), to);
    lemma_widen_extend_adds(s.filter(|y: VarRef| y.var != from), items, x);
    if !s.filter(|y: VarRef| y.var != from).contains(x) {
        let i = choose|i: int| 0 <= i < items.len() && x.var == (#[trigger] items[i]).var;
        assert(items[i].var == to);
    }
}

/// A well-formed set holds at most three references to one variable: of
/// four, two are the same.
pub proof fn lemma_at_most_three(s: &VarSet, a: VarRef, b: VarRef, c: VarRef, d: VarRef)
    requires
        s.wf(),
        s@.contains(a),
        s@.contains(b),
        s@.contains(c),
        s@.contains(d),
        a.var == b.var,
        a.var == c.var,
        a.var == d.var,
    ensures
        a == b || a == c || a == d || b == c || b == d || c == d,
{
}

/// Whether `s` accounts for `x`: it holds `x`, or the unknown offset of its variable.
pub open spec fn covers(s: Set<VarRef>, x: VarRef) -> bool {
    s.contains(x) || s.contains(VarRef { var: x.var, offset: None })
}

/// Whether `b` accounts for every reference of `a`.
pub open spec fn below(a: Set<VarRef>, b: Set<VarRef>) -> bool {
    forall|x: VarRef| a.contains(x) ==> covers(b, x)
}

/// What accounts for a set accounts for all that the set accounts for.
pub proof fn lemma_covers_below(a: Set<VarRef>, b: Set<VarRef>, x: VarRef)
    requires
        covers(a, x),
        below(a, b),
    ensures
        covers(b, x),
{
    let unknown = VarRef { var: x.var, offset: None };
    if !a.contains(x) {
        assert(a.contains(unknown));
        assert(covers(b, unknown));
    }
}

/// Adding with widening loses nothing: the result accounts for the set and
/// for the reference added.
pub proof fn lemma_widen_insert_grows(s: Set<VarRef>, vr: VarRef)
    ensures
        below(s, widen_insert(s, vr)),
        covers(widen_insert(s, vr), vr),
{
    let unknown = VarRef { var: vr.var, offset: None };
    let t = widen_insert(s, vr);
    assert forall|x: VarRef| s.contains(x) implies covers(t, x) by {
        if !t.contains(x) {
            assert(x.var == vr.var);
            assert(t.contains(unknown));
        }
    }
}

/// Adding a sequence with widening loses nothing: the result accounts for
/// the set and for each reference added.
pub proof fn lemma_widen_extend_grows(s: Set<VarRef>, items: Seq<VarRef>)
    ensures
        below(s, widen_extend(s, items)),
        forall|i: int| 0 <= i < items.len() ==> covers(widen_extend(s, items), #[trigger] items[i]),
    decreases items.len(),
{
    if items.len() > 0 {
        let first = widen_insert(s, items[0]);
        let rest = items.drop_first();
        let out = widen_extend(s, items);
        lemma_widen_insert_grows(s, items[0]);
        lemma_widen_extend_grows(first, rest);
        assert forall|x: VarRef| s.contains(x) implies covers(out, x) by {
            lemma_covers_below(first, out, x);
        }
        assert forall|i: int| 0 <= i < items.len() implies covers(out, #[trigger] items[i]) by {
            if i == 0 {
                lemma_covers_below(first, out, items[0]);
            } else {
                assert(rest[i - 1] == items[i]);
            }
        }
    }
}

/// Adding with widening keeps a set bounded and exclusive.
pub proof fn lemma_widen_insert(s: Set<VarRef>, vr: VarRef)
    requires
        bounded(s),
        exclusive(s),
    ensures
        bounded(widen_insert(s, vr)),
        exclusive(widen_insert(s, vr)),
{
    let unknown = VarRef { var: vr.var, offset: None };
    let t = widen_insert(s, vr);
    if s.contains(vr) || s.contains(unknown) {
    } else if vr.offset is None || crowded(s, vr.var) {
        assert forall|a: VarRef, b: VarRef, c: VarRef, d: VarRef|
            #![trigger t.contains(a), t.contains(b), t.contains(c), t.contains(d)]
            t.contains(a) && t.contains(b) && t.contains(c) && t.contains(d) && a.var == b.var
                && a.var == c.var && a.var == d.var implies a == b || a == c || a == d || b == c
            || b == d || c == d by {
            if a.var != vr.var {
                assert(s.contains(a) && s.contains(b) && s.contains(c) && s.contains(d));
            }
        }
        assert forall|a: VarRef, b: VarRef|
            #![trigger t.contains(a), t.contains(b)]
            t.contains(a) && t.contains(b) && a.var == b.var && a.offset is None implies a
            == b by {
            if a.var != vr.var {
                assert(s.contains(a) && s.contains(b));
            }
        }
    } else {
        assert forall|a: VarRef, b: VarRef, c: VarRef, d: VarRef|
            #![trigger t.contains(a), t.contains(b), t.contains(c), t.contains(d)]
            t.contains(a) && t.contains(b) && t.contains(c) && t.contains(d) && a.var == b.var
                && a.var == c.var && a.var == d.var implies a == b || a == c || a == d || b == c
            || b == d || c == d by {
            if a != b && a != c && a != d && b != c && b != d && c != d {
                if a == vr {
                    assert(s.contains(b) && s.contains(c) && s.contains(d));
                } else if b == vr {
                    assert(s.contains(a) && s.contains(c) && s.contains(d));
                } else if c == vr {
                    assert(s.contains(a) && s.contains(b) && s.contains(d));
                } else if d == vr {
                    assert(s.contains(a) && s.contains(b) && s.contains(c));
                } else {
                    assert(s.contains(a) && s.contains(b) && s.contains(c) && s.contains(d));
                }
            }
        }
        assert forall|a: VarRef, b: VarRef|
            #![trigger t.contains(a), t.contains(b)]
            t.contains(a) && t.contains(b) && a.var == b.var && a.offset is None implies a
            == b by {
            if b == vr {
                assert(a == unknown);
            } else {
                assert(s.contains(a) && s.contains(b));
            }
        }
    }
}

/// Adding a sequence with widening keeps a set bounded and exclusive.
pub proof fn lemma_widen_extend(s: Set<VarRef>, items: Seq<VarRef>)
    requires
        bounded(s),
        exclusive(s),
    ensures
        bounded(widen_extend(s, items)),
        exclusive(widen_extend(s, items)),
    decreases items.len(),
{
    if items.len() > 0 {
        lemma_widen_insert(s, items[0]);
        lemma_widen_extend(widen_insert(s, items[0]), items.drop_first());
    }
}

/// Within a bounded and exclusive set, adding with widening is plain adding.
pub proof fn lemma_widen_insert_within(s: Set<VarRef>, vr: VarRef, all: Set<VarRef>)
    requires
        bounded(all),
        exclusive(all),
        s.subset_of(all),
        all.contains(vr),
    ensures
        widen_insert(s, vr) == s.insert(vr),
{
    let unknown = VarRef { var: vr.var, offset: None };
    if s.contains(vr) {
        assert(s.insert(vr) =~= s);
    } else if s.contains(unknown) {
        assert(all.contains(unknown) && all.contains(vr));
    } else if vr.offset is None || crowded(s, vr.var) {
        if crowded(s, vr.var) {
            let (a, b, c) = choose|a: VarRef, b: VarRef, c: VarRef|
                #![trigger s.contains(a), s.contains(b), s.contains(c)]
                s.contains(a) && s.contains(b) && s.contains(c) && a.var == vr.var && b.var
                    == vr.var && c.var == vr.var && a != b && a != c && b != c;
            assert(all.contains(a) && all.contains(b) && all.contains(c) && all.contains(vr));
            assert(false);
        }
        assert(vr == unknown);
        assert forall|x: VarRef| s.contains(x) implies x.var != vr.var by {
            if x.var == vr.var {
                assert(all.contains(vr) && all.contains(x));
            }
        }
        assert(s.filter(|x: VarRef| x.var != vr.var) =~= s);
    }
}

/// Within a bounded and exclusive set, adding a sequence with widening is
/// plain adding.
pub proof fn lemma_widen_extend_within(s: Set<VarRef>, items: Seq<VarRef>, all: Set<VarRef>)
    requires
        bounded(all),
        exclusive(all),
        s.subset_of(all),
        forall|i: int| 0 <= i < items.len() ==> all.contains(#[trigger] items[i]),
    ensures
        widen_extend(s, items) == s.union(members(items)),
    decreases items.len(),
{
    if items.len() == 0 {
        assert(s.union(members(items)) =~= s);
    } else {
        lemma_widen_insert_within(s, items[0], all);
        let rest = items.drop_first();
        assert forall|i: int| 0 <= i < rest.len() implies all.contains(#[trigger] rest[i]) by {
            assert(rest[i] == items[i + 1]);
        }
        lemma_widen_extend_within(s.insert(items[0]), rest, all);
        assert forall|x: VarRef| s.insert(items[0]).union(members(rest)).contains(x) == s.union(
            members(items),
        ).contains(x) by {
            if rest.contains(x) {
                let i = choose|i: int| 0 <= i < rest.len() && rest[i] == x;
                assert(items[i + 1] == x);
            }
            if items.contains(x) {
                let i = choose|i: int| 0 <= i < items.len() && items[i] == x;
                if i > 0 {
                    assert(rest[i - 1] == x);
                }
            }
            if x == items[0] {
                assert(items.contains(x));
            }
        }
        assert(s.insert(items[0]).union(members(rest)) =~= s.union(members(items)));
    }
}

/// Adding one more reference after a sequence is adding the longer sequence.
pub proof fn lemma_widen_extend_push(s: Set<VarRef>, items: Seq<VarRef>, vr: VarRef)
    ensures
        widen_extend(s, items.push(vr)) == widen_insert(widen_extend(s, items), vr),
    decreases items.len(),
{
    if items.len() == 0 {
        assert(items.push(vr).drop_first() =~= items);
        assert(widen_extend(widen_insert(s, vr), items) == widen_insert(s, vr));
    } else {
        assert(items.push(vr).drop_first() =~= items.drop_first().push(vr));
        lemma_widen_extend_push(widen_insert(s, items[0]), items.drop_first(), vr);
    }
}

/// A set of references in which no variable is referred to at more than three
/// offsets, nor at an unknown offset together with another.
#[derive(Debug, PartialEq, Eq, PartialOrd, Ord, Hash)]
pub struct VarSet {
    inner: SortedSet<VarRef>,
}

impl View for VarSet {
    type V = Set<VarRef>;

    open spec fn view(&self) -> Set<VarRef> {
        members(self.seq())
    }
}

impl VarSet {
    /// The references of the set, in ascending order.
    pub closed spec fn seq(&self) -> Seq<VarRef> {
        self.inner.seq()
    }

    /// The references ascend strictly, and the set is bounded and exclusive.
    pub open spec fn wf(&self) -> bool {
        &&& ascending(self.seq())
        &&& bounded(self@)
        &&& exclusive(self@)
    }

    /// The set's sequence is the ascending sequence of its members.
    pub proof fn lemma_seq(&self)
        requires
            self.wf(),
        ensures
            elements(self@) == self.seq(),
    {
        self.inner.lemma_seq();
    }

    /// Adding this set to `s` loses nothing: the result accounts for both.
    pub proof fn lemma_union_grows(&self, s: Set<VarRef>)
        requires
            self.wf(),
        ensures
            below(s, widen_union(s, self@)),
            below(self@, widen_union(s, self@)),
    {
        self.lemma_seq();
        lemma_widen_extend_grows(s, self.seq());
        assert forall|x: VarRef| self@.contains(x) implies covers(widen_union(s, self@), x) by {
            let i = choose|i: int| 0 <= i < self.seq().len() && self.seq()[i] == x;
            assert(covers(widen_union(s, self@), self.seq()[i]));
        }
    }

    /// Adding a set to itself changes nothing.
    pub proof fn lemma_union_self(&self)
        requires
            self.wf(),
        ensures
            widen_union(self@, self@) == self@,
    {
        self.lemma_seq();
        lemma_widen_extend_within(self@, self.seq(), self@);
        assert(self@.union(members(self.seq())) =~= self@);
    }

    /// The empty set.
    pub fn new() -> (r: VarSet)
        ensures
            r.wf(),
            r@ == Set::<VarRef>::empty(),
            r.seq() == Seq::<VarRef>::empty(),
    {
        VarSet { inner: SortedSet::new() }
    }

    /// The number of references.
    pub fn len(&self) -> (n: usize)
        ensures
            n == self.seq().len(),
    {
        self.inner.len()
    }

    /// Whether the set is empty.
    pub fn is_empty(&self) -> (r: bool)
        ensures
            r == (self.seq().len() == 0),
            r == (self@ == Set::<VarRef>::empty()),
    {
        self.inner.is_empty()
    }

    /// The reference at position `i` of the ascending order.
    pub fn get(&self, i: usize) -> (r: &VarRef)
        requires
            i < self.seq().len(),
        ensures
            *r == self.seq()[i as int],
            self@.contains(*r),
    {
        self.inner.get(i)
    }

    /// Whether `vr` is in the set.
    pub fn contains(&self, vr: &VarRef) -> (r: bool)
        requires
            self.wf(),
        ensures
            r == self@.contains(*vr),
    {
        self.inner.contains(vr)
    }

    /// An exact copy of the set.
    pub fn dup(&self) -> (r: VarSet)
        ensures
            r.seq() == self.seq(),
            r@ == self@,
            r.wf() == self.wf(),
    {
        VarSet { inner: self.inner.dup() }
    }

    /// The references of the set, in ascending order.
    pub fn to_vec(&self) -> (r: Vec<VarRef>)
        ensures
            r@ == self.seq(),
    {
        self.inner.to_vec()
    }

    /// Takes `vr` out; says whether it was there.
    pub fn remove(&mut self, vr: &VarRef) -> (r: bool)
        requires
            old(self).wf(),
        ensures
            final(self).wf(),
            final(self)@ == old(self)@.remove(*vr),
            r == old(self)@.contains(*vr),
    {
        self.inner.remove(vr)
    }

    /// Takes every reference out.
    pub fn clear(&mut self)
        ensures
            final(self).wf(),
            final(self)@ == Set::<VarRef>::empty(),
    {
        self.inner.clear();
    }

    /// The references to `v`, in ascending order.
    fn alike(&self, v: &Var) -> (r: Vec<VarRef>)
        requires
            self.wf(),
        ensures
            forall|k: int| 0 <= k < r@.len() ==> self@.contains(#[trigger] r@[k]) && r@[k].var == *v,
            forall|x: VarRef| self@.contains(x) && x.var == *v ==> r@.contains(x),
            forall|k: int, m: int| 0 <= k < m < r@.len() ==> r@[k] != r@[m],
            (r@.len() > 2) == crowded(self@, *v),
            r@ == refs_of(self@, *v),
    {
        let mut out: Vec<VarRef> = Vec::new();
        let ghost mut at: Seq<int> = Seq::empty();
        let mut i: usize = 0;
        while i < self.inner.len()
            invariant
                i <= self.seq().len(),
                self.wf(),
                at.len() == out@.len(),
                forall|k: int| 0 <= k < out@.len() ==> 0 <= #[trigger] at[k] < i && out@[k] == self.seq()[at[k]] && out@[k].var == *v,
                forall|k: int, m: int| 0 <= k < m < out@.len() ==> at[k] < at[m],
                forall|j: int| 0 <= j < i && self.seq()[j].var == *v ==> out@.contains(#[trigger] self.seq()[j]),
            decreases self.seq().len() - i,
        {
            let x = self.inner.get(i);
            if x.var.same(v) {
                let ghost before = out@;
                out.push(x.copy());
                proof {
                    at = at.push(i as int);
                    assert forall|j: int| 0 <= j < i + 1 && self.seq()[j].var == *v implies out@.contains(#[trigger] self.seq()[j]) by {
                        if j < i {
                            let k = choose|k: int| 0 <= k < before.len() && before[k] == self.seq()[j];
                            assert(out@[k] == self.seq()[j]);
                        } else {
                            assert(out@[out@.len() - 1] == self.seq()[j]);
                        }
                    }
                }
            }
            i += 1;
        }
        proof {
            let s = self.seq();
            assert forall|k: int| 0 <= k < out@.len() implies self@.contains(#[trigger] out@[k])
                && out@[k].var == *v by {
                assert(s[at[k]] == out@[k]);
                assert(s.contains(out@[k]));
            }
            assert forall|x: VarRef| self@.contains(x) && x.var == *v implies out@.contains(x) by {
                let j = choose|j: int| 0 <= j < s.len() && s[j] == x;
                assert(out@.contains(s[j]));
            }
            assert forall|k: int, m: int| 0 <= k < m < out@.len() implies out@[k] != out@[m] by {
                assert(at[k] < at[m]);
                assert(s[at[k]] == out@[k] && s[at[m]] == out@[m]);
                if out@[k] == out@[m] {
                    crate::sorted_set::lemma_ascending_distinct(s, at[k], at[m]);
                }
            }
            assert forall|k: int, m: int| #![trigger out@[k], out@[m]] 0 <= k < m < out@.len() implies out@[k].lt(
                out@[m],
            ) by {
                assert(at[k] < at[m]);
                assert(s[at[k]].lt(s[at[m]]));
            }
            assert(members(out@) =~= self@.filter(|x: VarRef| x.var == *v));
            crate::sorted_set::lemma_elements(out@);
            if out@.len() > 2 {
                assert(self@.contains(out@[0]) && self@.contains(out@[1]) && self@.contains(out@[2]));
                assert(out@[0] != out@[1] && out@[0] != out@[2] && out@[1] != out@[2]);
            }
            if crowded(self@, *v) {
                let (a, b, c) = choose|a: VarRef, b: VarRef, c: VarRef|
                    #![trigger self@.contains(a), self@.contains(b), self@.contains(c)]
                    self@.contains(a) && self@.contains(b) && self@.contains(c) && a.var == *v
                        && b.var == *v && c.var == *v && a != b && a != c && b != c;
                let ka = choose|k: int| 0 <= k < out@.len() && out@[k] == a;
                let kb = choose|k: int| 0 <= k < out@.len() && out@[k] == b;
                let kc = choose|k: int| 0 <= k < out@.len() && out@[k] == c;
                assert(ka != kb && ka != kc && kb != kc);
            }
        }
        out
    }

    /// Adds `vr` with widening; says whether the set changed.
    pub fn insert(&mut self, vr: VarRef) -> (r: bool)
        requires
            old(self).wf(),
        ensures
            final(self).wf(),
            final(self)@ == widen_insert(old(self)@, vr),
            r == !(old(self)@.contains(vr) || old(self)@.contains(
                VarRef { var: vr.var, offset: None },
            )),
    {
        proof {
            lemma_widen_insert(self@, vr);
        }
        if self.inner.contains(&vr) {
            return false;
        }
        let vq = vr.unknown();
        if self.inner.contains(&vq) {
            return false;
        }
        let alike = self.alike(&vr.var);
        if alike.len() > 2 || vr.offset.is_none() {
            let ghost before = self@;
            let mut k: usize = 0;
            while k < alike.len()
                invariant
                    k <= alike@.len(),
                    self.inner.wf(),
                    forall|x: VarRef|
                        self@.contains(x) == (before.contains(x) && !alike@.subrange(
                            0,
                            k as int,
                        ).contains(x)),
                decreases alike@.len() - k,
            {
                let ghost prev = self@;
                self.inner.remove(&alike[k]);
                proof {
                    let done = alike@.subrange(0, k as int);
                    let next = alike@.subrange(0, k + 1);
                    assert forall|x: VarRef|
                        self@.contains(x) == (before.contains(x) && !next.contains(x)) by {
                        assert(prev.contains(x) == (before.contains(x) && !done.contains(x)));
                        assert(self@.contains(x) == (prev.contains(x) && x != alike@[k as int]));
                        if next.contains(x) {
                            let m = choose|m: int| 0 <= m < next.len() && next[m] == x;
                            if m < k {
                                assert(done[m] == x);
                            }
                        }
                        if done.contains(x) {
                            let m = choose|m: int| 0 <= m < done.len() && done[m] == x;
                            assert(next[m] == x);
                        }
                        if x == alike@[k as int] {
                            assert(next[k as int] == x);
                        }
                    }
                }
                k += 1;
            }
            proof {
                assert(alike@.subrange(0, k as int) =~= alike@);
                assert forall|x: VarRef| self@.contains(x) == before.filter(
                    |x: VarRef| x.var != vr.var,
                ).contains(x) by {
                    if alike@.contains(x) {
                        let m = choose|m: int| 0 <= m < alike@.len() && alike@[m] == x;
                        assert(alike@[m].var == vr.var);
                    }
                    if before.contains(x) && x.var == vr.var {
                        assert(alike@.contains(x));
                    }
                }
                assert(self@ =~= before.filter(|x: VarRef| x.var != vr.var));
            }
            self.inner.insert(vq);
            true
        } else {
            self.inner.insert(vr);
            true
        }
    }

    /// Takes out every reference to a variable of which `p` holds.
    pub fn remove_predicate<P: VarPredicate>(&mut self, p: &P)
        requires
            old(self).wf(),
            p.valid(),
        ensures
            final(self).wf(),
            final(self)@ == old(self)@.filter(|x: VarRef| !p.holds(x.var)),
    {
        let items = self.to_vec();
        let ghost before = self@;
        let mut i: usize = 0;
        while i < items.len()
            invariant
                i <= items@.len(),
                self.wf(),
                p.valid(),
                items@ == old(self).seq(),
                before == old(self)@,
                forall|x: VarRef|
                    self@.contains(x) == (before.contains(x) && !(p.holds(x.var)
                        && items@.subrange(0, i as int).contains(x))),
            decreases items@.len() - i,
        {
            let ghost prev = self@;
            let ghost done = items@.subrange(0, i as int);
            let ghost next = items@.subrange(0, i + 1);
            if p.test(&items[i].var) {
                self.inner.remove(&items[i]);
                proof {
                    assert forall|a: VarRef, b: VarRef, c: VarRef, d: VarRef|
                        #![trigger self@.contains(a), self@.contains(b), self@.contains(c), self@.contains(d)]
                        self@.contains(a) && self@.contains(b) && self@.contains(c)
                            && self@.contains(d) && a.var == b.var && a.var == c.var && a.var
                            == d.var implies a == b || a == c || a == d || b == c || b == d || c
                        == d by {
                        assert(prev.contains(a) && prev.contains(b) && prev.contains(c)
                            && prev.contains(d));
                    }
                    assert forall|a: VarRef, b: VarRef|
                        #![trigger self@.contains(a), self@.contains(b)]
                        self@.contains(a) && self@.contains(b) && a.var == b.var
                            && a.offset is None implies a == b by {
                        assert(prev.contains(a) && prev.contains(b));
                    }
                }
            }
            proof {
                assert forall|x: VarRef|
                    self@.contains(x) == (before.contains(x) && !(p.holds(x.var) && next.contains(
                        x,
                    ))) by {
                    assert(prev.contains(x) == (before.contains(x) && !(p.holds(x.var)
                        && done.contains(x))));
                    if next.contains(x) {
                        let m = choose|m: int| 0 <= m < next.len() && next[m] == x;
                        if m < i {
                            assert(done[m] == x);
                        }
                    }
                    if done.contains(x) {
                        let m = choose|m: int| 0 <= m < done.len() && done[m] == x;
                        assert(next[m] == x);
                    }
                    if x == items@[i as int] {
                        assert(next[i as int] == x);
                    }
                }
            }
            i += 1;
        }
        proof {
            assert(items@.subrange(0, i as int) =~= items@);
            assert(self@ =~= before.filter(|x: VarRef| !p.holds(x.var)));
        }
    }

    /// Turns every reference to `from` into one to `to`.
    pub fn retarget(&mut self, from: &Var, to: &Var)
        requires
            old(self).wf(),
        ensures
            final(self).wf(),
            final(self)@ == retargeted(old(self)@, *from, *to),
    {
        let moved = self.alike(from);
        let ghost before = self@;
        let mut fresh: Vec<VarRef> = Vec::new();
        let mut k: usize = 0;
        while k < moved.len()
            invariant
                k <= moved@.len(),
                self.wf(),
                fresh@ == turned(moved@.subrange(0, k as int), *to),
                forall|x: VarRef|
                    self@.contains(x) == (before.contains(x) && !moved@.subrange(
                        0,
                        k as int,
                    ).contains(x)),
            decreases moved@.len() - k,
        {
            let ghost prev = self@;
            let ghost done = moved@.subrange(0, k as int);
            let ghost next = moved@.subrange(0, k + 1);
            self.remove(&moved[k]);
            fresh.push(VarRef { var: to.copy(), offset: moved[k].offset });
            proof {
                assert(fresh@ =~= turned(next, *to));
                assert forall|x: VarRef|
                    self@.contains(x) == (before.contains(x) && !next.contains(x)) by {
                    assert(prev.contains(x) == (before.contains(x) && !done.contains(x)));
                    if next.contains(x) {
                        let m = choose|m: int| 0 <= m < next.len() && next[m] == x;
                        if m < k {
                            assert(done[m] == x);
                        }
                    }
                    if done.contains(x) {
                        let m = choose|m: int| 0 <= m < done.len() && done[m] == x;
                        assert(next[m] == x);
                    }
                    if x == moved@[k as int] {
                        assert(next[k as int] == x);
                    }
                }
            }
            k += 1;
        }
        proof {
            assert(moved@.subrange(0, k as int) =~= moved@);
            assert forall|x: VarRef| self@.contains(x) == before.filter(
                |x: VarRef| x.var != *from,
            ).contains(x) by {
                if moved@.contains(x) {
                    let m = choose|m: int| 0 <= m < moved@.len() && moved@[m] == x;
                    assert(moved@[m].var == *from);
                }
                if before.contains(x) && x.var == *from {
                    assert(moved@.contains(x));
                }
            }
            assert(self@ =~= before.filter(|x: VarRef| x.var != *from));
        }
        self.extend(&fresh);
    }

    /// Joins every reference to `from` by one to `to`.
    pub fn double(&mut self, from: &Var, to: &Var)
        requires
            old(self).wf(),
        ensures
            final(self).wf(),
            final(self)@ == doubled(old(self)@, *from, *to),
    {
        let copied = self.alike(from);
        let mut fresh: Vec<VarRef> = Vec::new();
        let mut k: usize = 0;
        while k < copied.len()
            invariant
                k <= copied@.len(),
                fresh@ == turned(copied@.subrange(0, k as int), *to),
            decreases copied@.len() - k,
        {
            fresh.push(VarRef { var: to.copy(), offset: copied[k].offset });
            assert(fresh@ =~= turned(copied@.subrange(0, k + 1), *to));
            k += 1;
        }
        assert(copied@.subrange(0, k as int) =~= copied@);
        self.extend(&fresh);
    }

    /// The variables that the references of the set are to.
    pub fn vars(&self) -> (r: SortedSet<Var>)
        requires
            self.wf(),
        ensures
            r.wf(),
            r@ == vars_of(self@),
    {
        let mut out: SortedSet<Var> = SortedSet::new();
        let mut i: usize = 0;
        while i < self.inner.len()
            invariant
                i <= self.seq().len(),
                out.wf(),
                forall|v: Var|
                    out@.contains(v) == (exists|j: int|
                        0 <= j < i && (#[trigger] self.seq()[j]).var == v),
            decreases self.seq().len() - i,
        {
            let ghost prev = out@;
            out.insert(self.inner.get(i).var.copy());
            proof {
                assert forall|v: Var|
                    out@.contains(v) == (exists|j: int|
                        0 <= j < i + 1 && (#[trigger] self.seq()[j]).var == v) by {
                    if prev.contains(v) {
                        let j = choose|j: int| 0 <= j < i && (#[trigger] self.seq()[j]).var == v;
                        assert(0 <= j < i + 1 && self.seq()[j].var == v);
                    }
                    if v == self.seq()[i as int].var {
                        assert(0 <= i < i + 1 && self.seq()[i as int].var == v);
                    }
                    if exists|j: int| 0 <= j < i + 1 && (#[trigger] self.seq()[j]).var == v {
                        let j = choose|j: int|
                            0 <= j < i + 1 && (#[trigger] self.seq()[j]).var == v;
                        if j < i {
                            assert(prev.contains(v));
                        }
                    }
                }
            }
            i += 1;
        }
        proof {
            assert forall|v: Var| out@.contains(v) == vars_of(self@).contains(v) by {
                if out@.contains(v) {
                    let j = choose|j: int| 0 <= j < i && (#[trigger] self.seq()[j]).var == v;
                    assert(self.seq().contains(self.seq()[j]));
                    assert(self@.contains(self.seq()[j]));
                }
                if vars_of(self@).contains(v) {
                    let x = choose|x: VarRef| self@.contains(x) && x.var == v;
                    let j = choose|j: int| 0 <= j < self.seq().len() && self.seq()[j] == x;
                    assert(self.seq()[j].var == v);
                }
            }
            assert(out@ =~= vars_of(self@));
        }
        out
    }

    /// Adds each of `items` with widening, first to last.
    pub fn extend(&mut self, items: &Vec<VarRef>)
        requires
            old(self).wf(),
        ensures
            final(self).wf(),
            final(self)@ == widen_extend(old(self)@, items@),
    {
        let ghost start = self@;
        let mut i: usize = 0;
        while i < items.len()
            invariant
                i <= items@.len(),
                self.wf(),
                self@ == widen_extend(start, items@.subrange(0, i as int)),
            decreases items@.len() - i,
        {
            proof {
                lemma_widen_extend_push(start, items@.subrange(0, i as int), items@[i as int]);
                assert(items@.subrange(0, i as int).push(items@[i as int]) =~= items@.subrange(
                    0,
                    i + 1,
                ));
            }
            self.insert(items[i].copy());
            i += 1;
        }
        assert(items@.subrange(0, i as int) =~= items@);
    }

    /// Adds the references of `other` with widening, in ascending order.
    pub fn extend_from(&mut self, other: &VarSet)
        requires
            old(self).wf(),
            other.wf(),
        ensures
            final(self).wf(),
            final(self)@ == widen_union(old(self)@, other@),
    {
        proof {
            other.lemma_seq();
        }
        let items = other.to_vec();
        self.extend(&items);
    }
}

impl Clone for VarSet {
    fn clone(&self) -> (r: VarSet)
        ensures
            r.seq() == self.seq(),
            r@ == self@,
            r.wf() == self.wf(),
    {
        self.dup()
    }
}

} // verus!
