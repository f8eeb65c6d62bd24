//! What the fields of one variable may point to.

use vstd::prelude::*;
use crate::order::StrictOrder;
use crate::sorted_map::SortedMap;
use crate::sorted_set::{SortedSet, ascending, elements, lemma_elements};
use crate::var::{Var, VarPredicate, holds_of};
use crate::var_ref::{
    VarRef,
    VarSet,
    below,
    bounded,
    doubled,
    exclusive,
    retargeted,
    vars_of,
    widen_union,
};

verus! {

/// The mathematical content of a `FieldMap`.
pub struct FieldMapView {
    /// What a field at an unknown offset may point to.
    pub unbounded: Set<VarRef>,
    /// What the field at each known offset may point to.
    pub offsets: Map<u64, Set<VarRef>>,
    /// Whether a write at an unknown offset has taken place.
    pub ub_write: bool,
}

/// `acc` after the sets that `offsets` gives to each of `keys` are added with
/// widening, first key to last.
pub open spec fn gather(acc: Set<VarRef>, keys: Seq<u64>, offsets: Map<u64, Set<VarRef>>) -> Set<
    VarRef,
>
    decreases keys.len(),
{
    if keys.len() == 0 {
        acc
    } else {
        gather(widen_union(acc, offsets[keys[0]]), keys.drop_first(), offsets)
    }
}

impl FieldMapView {
    /// The content of a map that nothing was written to.
    pub open spec fn empty() -> FieldMapView {
        FieldMapView { unbounded: Set::empty(), offsets: Map::empty(), ub_write: false }
    }

    /// Every set is bounded and exclusive.
    pub open spec fn ok(self) -> bool {
        &&& bounded(self.unbounded)
        &&& exclusive(self.unbounded)
        &&& forall|k: u64| #[trigger]
            self.offsets.contains_key(k) ==> bounded(self.offsets[k]) && exclusive(self.offsets[k])
    }

    /// Whether some field may point to `vr`.
    pub open spec fn refers(self, vr: VarRef) -> bool {
        self.unbounded.contains(vr) || exists|k: u64| #[trigger]
            self.offsets.contains_key(k) && self.offsets[k].contains(vr)
    }

    /// The variables that some field may point into.
    pub open spec fn targets(self) -> Set<Var> {
        Set::new(|v: Var| exists|vr: VarRef| self.refers(vr) && vr.var == v)
    }

    /// Whether nothing is recorded at all.
    pub open spec fn is_empty(self) -> bool {
        self.unbounded =~= Set::empty() && self.offsets.dom() =~= Set::empty()
    }

    /// Whether `other` accounts for this content: for what may be at an
    /// unknown offset, and at each offset recorded here for what may be at
    /// that offset.
    pub open spec fn below(self, other: FieldMapView) -> bool {
        &&& below(self.unbounded, other.unbounded)
        &&& forall|k: u64| #[trigger]
            self.offsets.contains_key(k) ==> below(self.offsets[k], other.read(Some(k)))
    }

    /// The content after `other` is merged in: the unknown-offset sets are
    /// joined; an offset known to both has its sets joined; one known to
    /// `other` alone starts from the joined unknown-offset set.
    pub open spec fn merge(self, other: FieldMapView) -> FieldMapView {
        let unbounded = widen_union(self.unbounded, other.unbounded);
        FieldMapView {
            unbounded,
            offsets: Map::new(
                |k: u64| self.offsets.contains_key(k) || other.offsets.contains_key(k),
                |k: u64|
                    if other.offsets.contains_key(k) {
                        if self.offsets.contains_key(k) {
                            widen_union(self.offsets[k], other.offsets[k])
                        } else {
                            widen_union(unbounded, other.offsets[k])
                        }
                    } else {
                        self.offsets[k]
                    },
            ),
            ub_write: self.ub_write,
        }
    }

    /// The content without the references to variables of which `p` holds.
    pub open spec fn without(self, p: spec_fn(Var) -> bool) -> FieldMapView {
        FieldMapView {
            unbounded: self.unbounded.filter(|x: VarRef| !p(x.var)),
            offsets: self.offsets.map_values(|s: Set<VarRef>| s.filter(|x: VarRef| !p(x.var))),
            ub_write: self.ub_write,
        }
    }

    /// The content in which every reference to `from` has become one to `to`.
    pub open spec fn retarget(self, from: Var, to: Var) -> FieldMapView {
        FieldMapView {
            unbounded: retargeted(self.unbounded, from, to),
            offsets: self.offsets.map_values(|s: Set<VarRef>| retargeted(s, from, to)),
            ub_write: self.ub_write,
        }
    }

    /// The content in which every reference to `from` is joined by one to `to`.
    pub open spec fn double(self, from: Var, to: Var) -> FieldMapView {
        FieldMapView {
            unbounded: doubled(self.unbounded, from, to),
            offsets: self.offsets.map_values(|s: Set<VarRef>| doubled(s, from, to)),
            ub_write: self.ub_write,
        }
    }

    /// Whether a write at `offset` replaces all that is recorded: the offset
    /// is known, no write at an unknown offset has taken place, and `offset`
    /// is the one offset recorded.
    pub open spec fn precise(self, offset: Option<u64>) -> bool {
        match offset {
            Some(o) => !self.ub_write && self.offsets.contains_key(o) && forall|k: u64|
                self.offsets.contains_key(k) ==> k == o,
            None => false,
        }
    }

    /// The content after `val` is written at `offset`: a known offset has its
    /// set replaced, and a precise write empties the unknown-offset set; a
    /// write at an unknown offset joins `val` to every set.
    pub open spec fn write(self, offset: Option<u64>, val: Set<VarRef>) -> FieldMapView {
        match offset {
            Some(o) => FieldMapView {
                unbounded: if self.precise(offset) {
                    Set::empty()
                } else {
                    self.unbounded
                },
                offsets: self.offsets.insert(o, val),
                ub_write: self.ub_write,
            },
            None => FieldMapView {
                unbounded: widen_union(self.unbounded, val),
                offsets: self.offsets.map_values(|s: Set<VarRef>| widen_union(s, val)),
                ub_write: true,
            },
        }
    }

    /// The content after `val` is added at `offset` without replacing: a
    /// known offset has `val` joined to its set, which starts from the
    /// unknown-offset set where the offset was not recorded; an unknown
    /// offset joins `val` to every set.
    pub open spec fn extend(self, offset: Option<u64>, val: Set<VarRef>) -> FieldMapView {
        match offset {
            Some(o) => FieldMapView {
                unbounded: self.unbounded,
                offsets: self.offsets.insert(
                    o,
                    widen_union(
                        if self.offsets.contains_key(o) {
                            self.offsets[o]
                        } else {
                            self.unbounded
                        },
                        val,
                    ),
                ),
                ub_write: self.ub_write,
            },
            None => self.write(None, val),
        }
    }

    /// What the field at `offset` may point to: the set of a recorded
    /// offset, the unknown-offset set for one not recorded, and for an
    /// unknown offset all sets joined in ascending order of the offsets.
    pub open spec fn read(self, offset: Option<u64>) -> Set<VarRef> {
        match offset {
            Some(o) => if self.offsets.contains_key(o) {
                self.offsets[o]
            } else {
                self.unbounded
            },
            None => gather(self.unbounded, elements(self.offsets.dom()), self.offsets),
        }
    }
}

/// What the fields of one variable may point to: a set for each known offset,
/// and one for the unknown offset.
#[derive(Debug, PartialEq, Eq, PartialOrd, Ord, Hash)]
pub struct FieldMap {
    unbounded: VarSet,
    offsets: SortedMap<u64, VarSet>,
    ub_write: bool,
}

/// The map from each of `keys` to the content of the set at its position.
pub closed spec fn set_views(m: SortedMap<u64, VarSet>) -> Map<u64, Set<VarRef>> {
    Map::new(|k: u64| m@.contains_key(k), |k: u64| m@[k]@)
}

proof fn lemma_set_views_at(m: SortedMap<u64, VarSet>, i: int)
    requires
        m.wf(),
        0 <= i < m.keys().len(),
    ensures
        set_views(m).contains_key(m.keys()[i]),
        set_views(m)[m.keys()[i]] == m.vals()[i]@,
{
    m.lemma_at(i);
}

proof fn lemma_set_views_dom(m: SortedMap<u64, VarSet>)
    requires
        m.wf(),
    ensures
        set_views(m).dom() == crate::sorted_set::members(m.keys()),
        elements(set_views(m).dom()) == m.keys(),
{
    assert(set_views(m).dom() =~= crate::sorted_set::members(m.keys()));
    lemma_elements(m.keys());
}

/// All the sets of `m` are well-formed.
pub closed spec fn sets_wf(m: SortedMap<u64, VarSet>) -> bool {
    forall|k: u64| #[trigger] m@.contains_key(k) ==> m@[k].wf()
}

proof fn lemma_sets_wf_at(m: SortedMap<u64, VarSet>, i: int)
    requires
        m.wf(),
        sets_wf(m),
        0 <= i < m.keys().len(),
    ensures
        m.vals()[i].wf(),
        m@.contains_key(m.keys()[i]),
        m@[m.keys()[i]] == m.vals()[i],
{
    m.lemma_at(i);
}

/// Proves that `m` has the content `target` from what holds at each position.
proof fn lemma_set_views_is(m: SortedMap<u64, VarSet>, target: Map<u64, Set<VarRef>>)
    requires
        m.wf(),
        forall|k: u64| target.contains_key(k) == m.keys().contains(k),
        forall|i: int| 0 <= i < m.keys().len() ==> target[#[trigger] m.keys()[i]] == m.vals()[i]@,
    ensures
        set_views(m) == target,
{
    assert forall|k: u64| set_views(m).contains_key(k) implies set_views(m)[k] == target[k] by {
        m.lemma_key(k);
        let i = crate::sorted_map::slot(m.keys(), k);
        assert(target[m.keys()[i]] == m.vals()[i]@);
    }
    assert(set_views(m) =~= target);
}

impl View for FieldMap {
    type V = FieldMapView;

    closed spec fn view(&self) -> FieldMapView {
        FieldMapView {
            unbounded: self.unbounded@,
            offsets: set_views(self.offsets),
            ub_write: self.ub_write,
        }
    }
}

impl FieldMap {
    /// Every set is well-formed, and the offsets ascend.
    pub closed spec fn wf(&self) -> bool {
        &&& self.unbounded.wf()
        &&& self.offsets.wf()
        &&& sets_wf(self.offsets)
    }

    /// The content of a well-formed map is bounded and exclusive.
    pub proof fn lemma_view_ok(&self)
        requires
            self.wf(),
        ensures
            self@.ok(),
    {
        assert forall|k: u64| #[trigger] self@.offsets.contains_key(k) implies bounded(
            self@.offsets[k],
        ) && exclusive(self@.offsets[k]) by {
            assert(self.offsets@.contains_key(k));
            assert(self.offsets@[k].wf());
        }
    }

    /// A map accounts for itself.
    pub proof fn lemma_below_self(&self)
        ensures
            self@.below(self@),
    {
    }

    /// Merging loses nothing: the merged map accounts for both.
    pub proof fn lemma_merge_grows(&self, other: &FieldMap)
        requires
            self.wf(),
            other.wf(),
        ensures
            self@.below(self@.merge(other@)),
            other@.below(self@.merge(other@)),
    {
        let merged = self@.merge(other@);
        other.unbounded.lemma_union_grows(self@.unbounded);
        assert forall|k: u64| #[trigger] self@.offsets.contains_key(k) implies below(
            self@.offsets[k],
            merged.read(Some(k)),
        ) by {
            if other@.offsets.contains_key(k) {
                assert(other.offsets@.contains_key(k));
                other.offsets@[k].lemma_union_grows(self@.offsets[k]);
            }
        }
        assert forall|k: u64| #[trigger] other@.offsets.contains_key(k) implies below(
            other@.offsets[k],
            merged.read(Some(k)),
        ) by {
            assert(other.offsets@.contains_key(k));
            if self@.offsets.contains_key(k) {
                other.offsets@[k].lemma_union_grows(self@.offsets[k]);
            } else {
                other.offsets@[k].lemma_union_grows(merged.unbounded);
            }
        }
    }

    /// Merging a map into itself changes nothing.
    pub proof fn lemma_merge_self(&self)
        requires
            self.wf(),
        ensures
            self@.merge(self@) == self@,
    {
        self.unbounded.lemma_union_self();
        let merged = self@.merge(self@);
        assert forall|k: u64| #[trigger] merged.offsets.contains_key(k) implies merged.offsets[k]
            == self@.offsets[k] by {
            assert(self.offsets@.contains_key(k));
            self.offsets@[k].lemma_union_self();
        }
        assert(merged.offsets =~= self@.offsets);
    }

    /// A map that nothing was written to.
    pub fn new() -> (r: FieldMap)
        ensures
            r.wf(),
            r@ == FieldMapView::empty(),
    {
        let r = FieldMap { unbounded: VarSet::new(), offsets: SortedMap::new(), ub_write: false };
        assert(r@.offsets =~= Map::empty());
        r
    }

    /// An exact copy of the map.
    pub fn dup(&self) -> (r: FieldMap)
        ensures
            self.wf() ==> r.wf() && r@ == self@,
    {
        let mut keys: Vec<u64> = Vec::new();
        let mut i: usize = 0;
        while i < self.offsets.len()
            invariant
                i <= self.offsets.keys().len(),
                keys@ == self.offsets.keys().subrange(0, i as int),
            decreases self.offsets.keys().len() - i,
        {
            keys.push(*self.offsets.key_at(i));
            assert(keys@ =~= self.offsets.keys().subrange(0, i + 1));
            i += 1;
        }
        let mut vals: Vec<VarSet> = Vec::new();
        let mut j: usize = 0;
        while j < self.offsets.vals_len()
            invariant
                j <= self.offsets.vals().len(),
                vals@.len() == j,
                forall|m: int|
                    0 <= m < j ==> (#[trigger] vals@[m]).seq() == self.offsets.vals()[m].seq(),
            decreases self.offsets.vals().len() - j,
        {
            vals.push(self.offsets.value_at(j).dup());
            j += 1;
        }
        assert(keys@ =~= self.offsets.keys());
        let offsets = SortedMap::from_parts(keys, vals);
        let r = FieldMap { unbounded: self.unbounded.dup(), offsets, ub_write: self.ub_write };
        proof {
            if self.wf() {
                assert forall|k: u64| #[trigger] r.offsets@.contains_key(k) implies r.offsets@[k].wf() by {
                    r.offsets.lemma_key(k);
                    let m = crate::sorted_map::slot(r.offsets.keys(), k);
                    lemma_sets_wf_at(self.offsets, m);
                    assert(r.offsets.vals()[m].seq() == self.offsets.vals()[m].seq());
                }
                assert forall|m: int| 0 <= m < r.offsets.keys().len() implies set_views(
                    self.offsets,
                )[#[trigger] r.offsets.keys()[m]] == r.offsets.vals()[m]@ by {
                    lemma_set_views_at(self.offsets, m);
                    assert(r.offsets.vals()[m].seq() == self.offsets.vals()[m].seq());
                }
                lemma_set_views_is(r.offsets, set_views(self.offsets));
            }
        }
        r
    }
}


/// What each of the sets of a map is to become.
pub enum Change<'a> {
    /// The references of a set are added with widening.
    Join(&'a VarSet),
    /// Every reference to the first variable becomes one to the second.
    Retarget(&'a Var, &'a Var),
    /// Every reference to the first variable is joined by one to the second.
    Double(&'a Var, &'a Var),
}

impl<'a> Change<'a> {
    /// What the change makes of `s`.
    pub open spec fn apply(self, s: Set<VarRef>) -> Set<VarRef> {
        match self {
            Change::Join(val) => widen_union(s, val@),
            Change::Retarget(from, to) => retargeted(s, *from, *to),
            Change::Double(from, to) => doubled(s, *from, *to),
        }
    }

    /// Whether the change can be made.
    pub open spec fn wf(self) -> bool {
        match self {
            Change::Join(val) => val.wf(),
            _ => true,
        }
    }

    fn run(&self, s: &mut VarSet)
        requires
            old(s).wf(),
            self.wf(),
        ensures
            final(s).wf(),
            final(s)@ == self.apply(old(s)@),
    {
        match self {
            Change::Join(val) => s.extend_from(val),
            Change::Retarget(from, to) => s.retarget(from, to),
            Change::Double(from, to) => s.double(from, to),
        }
    }
}

/// Makes `change` on every set of `m`.
fn change_all(m: &mut SortedMap<u64, VarSet>, change: &Change)
    requires
        old(m).wf(),
        sets_wf(*old(m)),
        change.wf(),
    ensures
        final(m).wf(),
        sets_wf(*final(m)),
        final(m).keys() == old(m).keys(),
        set_views(*final(m)) == set_views(*old(m)).map_values(|s: Set<VarRef>| change.apply(s)),
{
    let ghost start = *m;
    let mut i: usize = 0;
    while i < m.len()
        invariant
            i <= m.keys().len(),
            m.wf(),
            sets_wf(*m),
            start.wf(),
            sets_wf(start),
            change.wf(),
            m.keys() == start.keys(),
            forall|j: int|
                0 <= j < m.keys().len() ==> (#[trigger] m.vals()[j])@ == if j < i {
                    change.apply(start.vals()[j]@)
                } else {
                    start.vals()[j]@
                },
        decreases m.keys().len() - i,
    {
        let ghost prev = *m;
        proof {
            lemma_sets_wf_at(*m, i as int);
        }
        let mut vs = m.value_at(i).dup();
        change.run(&mut vs);
        m.set_at(i, vs);
        proof {
            assert forall|k: u64| #[trigger] m@.contains_key(k) implies m@[k].wf() by {
                assert(prev@.contains_key(k) || k == prev.keys()[i as int]);
                if k != prev.keys()[i as int] {
                    assert(prev@[k].wf());
                }
            }
        }
        i += 1;
    }
    proof {
        let target = set_views(start).map_values(|s: Set<VarRef>| change.apply(s));
        assert forall|k: u64| target.contains_key(k) == m.keys().contains(k) by {
            assert(set_views(start).contains_key(k) == start@.contains_key(k));
        }
        assert forall|j: int| 0 <= j < m.keys().len() implies target[#[trigger] m.keys()[j]]
            == m.vals()[j]@ by {
            lemma_set_views_at(start, j);
        }
        lemma_set_views_is(*m, target);
    }
}

/// Takes the references to variables of which `p` holds out of every set of `m`.
fn remove_predicate_all<P: VarPredicate>(m: &mut SortedMap<u64, VarSet>, p: &P)
    requires
        old(m).wf(),
        sets_wf(*old(m)),
        p.valid(),
    ensures
        final(m).wf(),
        sets_wf(*final(m)),
        final(m).keys() == old(m).keys(),
        set_views(*final(m)) == set_views(*old(m)).map_values(
            |s: Set<VarRef>| s.filter(|x: VarRef| !p.holds(x.var)),
        ),
{
    let ghost start = *m;
    let mut i: usize = 0;
    while i < m.len()
        invariant
            i <= m.keys().len(),
            m.wf(),
            sets_wf(*m),
            start.wf(),
            sets_wf(start),
            p.valid(),
            m.keys() == start.keys(),
            forall|j: int|
                0 <= j < m.keys().len() ==> (#[trigger] m.vals()[j])@ == if j < i {
                    start.vals()[j]@.filter(|x: VarRef| !p.holds(x.var))
                } else {
                    start.vals()[j]@
                },
        decreases m.keys().len() - i,
    {
        let ghost prev = *m;
        proof {
            lemma_sets_wf_at(*m, i as int);
        }
        let mut vs = m.value_at(i).dup();
        vs.remove_predicate(p);
        m.set_at(i, vs);
        proof {
            assert forall|k: u64| #[trigger] m@.contains_key(k) implies m@[k].wf() by {
                assert(prev@.contains_key(k) || k == prev.keys()[i as int]);
                if k != prev.keys()[i as int] {
                    assert(prev@[k].wf());
                }
            }
        }
        i += 1;
    }
    proof {
        let target = set_views(start).map_values(
            |s: Set<VarRef>| s.filter(|x: VarRef| !p.holds(x.var)),
        );
        assert forall|k: u64| target.contains_key(k) == m.keys().contains(k) by {
            assert(set_views(start).contains_key(k) == start@.contains_key(k));
        }
        assert forall|j: int| 0 <= j < m.keys().len() implies target[#[trigger] m.keys()[j]]
            == m.vals()[j]@ by {
            lemma_set_views_at(start, j);
        }
        lemma_set_views_is(*m, target);
    }
}

impl FieldMap {
    /// Whether nothing is recorded at all.
    pub fn is_empty(&self) -> (r: bool)
        requires
            self.wf(),
        ensures
            r == self@.is_empty(),
    {
        let r = self.unbounded.is_empty() && self.offsets.is_empty();
        proof {
            lemma_set_views_dom(self.offsets);
            if self.offsets.keys().len() > 0 {
                lemma_set_views_at(self.offsets, 0);
            }
        }
        r
    }

    /// Whether a write at `offset` replaces all that is recorded.
    pub fn precise(&self, offset: Option<u64>) -> (r: bool)
        requires
            self.wf(),
        ensures
            r == self@.precise(offset),
    {
        match offset {
            None => false,
            Some(o) => {
                if self.ub_write {
                    return false;
                }
                if self.offsets.len() != 1 {
                    proof {
                        if self.offsets.keys().len() > 1 {
                            lemma_set_views_at(self.offsets, 0);
                            lemma_set_views_at(self.offsets, 1);
                            assert(self.offsets.keys()[0].lt(self.offsets.keys()[1]));
                        } else {
                            lemma_set_views_dom(self.offsets);
                            assert(!self.offsets.keys().contains(o));
                        }
                    }
                    return false;
                }
                let r = self.offsets.contains_key(&o);
                proof {
                    lemma_set_views_at(self.offsets, 0);
                    if r {
                        assert forall|k: u64| self@.offsets.contains_key(k) implies k == o by {
                            self.offsets.lemma_key(k);
                            self.offsets.lemma_key(o);
                        }
                    }
                }
                r
            },
        }
    }

    /// Records `val` at `offset`, in place of what was recorded there.
    pub fn write(&mut self, offset: Option<u64>, val: VarSet)
        requires
            old(self).wf(),
            val.wf(),
        ensures
            final(self).wf(),
            final(self)@ == old(self)@.write(offset, val@),
    {
        if self.precise(offset) {
            self.unbounded.clear();
        }
        match offset {
            Some(o) => {
                let ghost prev = self.offsets;
                self.offsets.insert(o, val);
                proof {
                    assert(set_views(self.offsets) =~= set_views(prev).insert(o, val@));
                    assert forall|k: u64| #[trigger] self.offsets@.contains_key(k) implies self.offsets@[k].wf() by {
                        if k != o {
                            assert(prev@.contains_key(k));
                        }
                    }
                }
            },
            None => {
                self.unbounded.extend_from(&val);
                self.ub_write = true;
                change_all(&mut self.offsets, &Change::Join(&val));
                proof {
                    assert(self@.offsets =~= old(self)@.offsets.map_values(
                        |s: Set<VarRef>| widen_union(s, val@),
                    ));
                }
            },
        }
    }

    /// Adds `val` to what is recorded at `offset`.
    pub fn extend(&mut self, offset: Option<u64>, val: &VarSet)
        requires
            old(self).wf(),
            val.wf(),
        ensures
            final(self).wf(),
            final(self)@ == old(self)@.extend(offset, val@),
    {
        match offset {
            Some(o) => {
                let ghost prev = self.offsets;
                let mut vs = match self.offsets.get(&o) {
                    Some(cur) => cur.dup(),
                    None => self.unbounded.dup(),
                };
                vs.extend_from(val);
                let ghost joined = vs@;
                self.offsets.insert(o, vs);
                proof {
                    assert(set_views(self.offsets) =~= set_views(prev).insert(o, joined));
                    assert forall|k: u64| #[trigger] self.offsets@.contains_key(k) implies self.offsets@[k].wf() by {
                        if k != o {
                            assert(prev@.contains_key(k));
                        }
                    }
                }
            },
            None => {
                self.unbounded.extend_from(val);
                self.ub_write = true;
                change_all(&mut self.offsets, &Change::Join(val));
                proof {
                    assert(self@.offsets =~= old(self)@.offsets.map_values(
                        |s: Set<VarRef>| widen_union(s, val@),
                    ));
                }
            },
        }
    }

    /// What the field at `offset` may point to.
    pub fn read(&self, offset: Option<u64>) -> (r: VarSet)
        requires
            self.wf(),
        ensures
            r.wf(),
            r@ == self@.read(offset),
    {
        match offset {
            Some(o) => match self.offsets.get(&o) {
                None => self.unbounded.dup(),
                Some(vs) => vs.dup(),
            },
            None => {
                let mut out = self.unbounded.dup();
                let ghost keys = self.offsets.keys();
                let ghost m = set_views(self.offsets);
                let mut i: usize = 0;
                assert(keys.subrange(0, keys.len() as int) =~= keys);
                while i < self.offsets.len()
                    invariant
                        i <= self.offsets.keys().len(),
                        self.wf(),
                        out.wf(),
                        keys == self.offsets.keys(),
                        m == set_views(self.offsets),
                        gather(out@, keys.subrange(i as int, keys.len() as int), m) == gather(
                            self.unbounded@,
                            keys,
                            m,
                        ),
                    decreases self.offsets.keys().len() - i,
                {
                    proof {
                        lemma_sets_wf_at(self.offsets, i as int);
                        lemma_set_views_at(self.offsets, i as int);
                        let rest = keys.subrange(i as int, keys.len() as int);
                        assert(rest[0] == keys[i as int]);
                        assert(rest.drop_first() =~= keys.subrange(i + 1, keys.len() as int));
                    }
                    out.extend_from(self.offsets.value_at(i));
                    i += 1;
                }
                proof {
                    assert(keys.subrange(i as int, keys.len() as int).len() == 0);
                    lemma_set_views_dom(self.offsets);
                }
                out
            },
        }
    }

    /// Merges what `other` records into this map.
    pub fn merge(&mut self, other: &FieldMap)
        requires
            old(self).wf(),
            other.wf(),
        ensures
            final(self).wf(),
            final(self)@ == old(self)@.merge(other@),
    {
        self.unbounded.extend_from(&other.unbounded);
        let ghost start = set_views(self.offsets);
        let ghost theirs = set_views(other.offsets);
        let ghost unbounded = self.unbounded@;
        let mut i: usize = 0;
        while i < other.offsets.len()
            invariant
                i <= other.offsets.keys().len(),
                other.wf(),
                self.unbounded.wf(),
                self.unbounded@ == unbounded,
                self.ub_write == old(self).ub_write,
                self.offsets.wf(),
                sets_wf(self.offsets),
                theirs == set_views(other.offsets),
                set_views(self.offsets) == Map::new(
                    |k: u64|
                        start.contains_key(k) || other.offsets.keys().subrange(
                            0,
                            i as int,
                        ).contains(k),
                    |k: u64|
                        if other.offsets.keys().subrange(0, i as int).contains(k) {
                            if start.contains_key(k) {
                                widen_union(start[k], theirs[k])
                            } else {
                                widen_union(unbounded, theirs[k])
                            }
                        } else {
                            start[k]
                        },
                ),
            decreases other.offsets.keys().len() - i,
        {
            let ghost prev = self.offsets;
            let ghost done = other.offsets.keys().subrange(0, i as int);
            let ghost next = other.offsets.keys().subrange(0, i + 1);
            let k: u64 = *other.offsets.key_at(i);
            let v = other.offsets.value_at(i);
            proof {
                lemma_sets_wf_at(other.offsets, i as int);
                lemma_set_views_at(other.offsets, i as int);
                if done.contains(k) {
                    let j = choose|j: int| 0 <= j < done.len() && done[j] == k;
                    crate::sorted_set::lemma_ascending_distinct(other.offsets.keys(), j, i as int);
                }
            }
            let mut vs = match self.offsets.get(&k) {
                Some(cur) => cur.dup(),
                None => self.unbounded.dup(),
            };
            vs.extend_from(v);
            let ghost joined = vs@;
            self.offsets.insert(k, vs);
            proof {
                assert(!done.contains(k));
                assert(set_views(prev).contains_key(k) == start.contains_key(k));
                assert(set_views(prev).contains_key(k) == prev@.contains_key(k));
                if prev@.contains_key(k) {
                    assert(set_views(prev)[k] == start[k]);
                    assert(set_views(prev)[k] == prev@[k]@);
                }
                assert(theirs[k] == v@);
                assert(joined == if start.contains_key(k) {
                    widen_union(start[k], theirs[k])
                } else {
                    widen_union(unbounded, theirs[k])
                });
                assert(set_views(self.offsets) =~= set_views(prev).insert(k, joined));
                assert forall|x: u64| #[trigger] self.offsets@.contains_key(x) implies self.offsets@[x].wf() by {
                    if x != k {
                        assert(prev@.contains_key(x));
                    }
                }
                assert forall|x: u64| next.contains(x) == (done.contains(x) || x == k) by {
                    if next.contains(x) {
                        let j = choose|j: int| 0 <= j < next.len() && next[j] == x;
                        if j < i {
                            assert(done[j] == x);
                        }
                    }
                    if done.contains(x) {
                        let j = choose|j: int| 0 <= j < done.len() && done[j] == x;
                        assert(next[j] == x);
                    }
                    if x == k {
                        assert(next[i as int] == x);
                    }
                }
                assert(set_views(self.offsets) =~= Map::new(
                    |k: u64| start.contains_key(k) || next.contains(k),
                    |k: u64|
                        if next.contains(k) {
                            if start.contains_key(k) {
                                widen_union(start[k], theirs[k])
                            } else {
                                widen_union(unbounded, theirs[k])
                            }
                        } else {
                            start[k]
                        },
                ));
            }
            i += 1;
        }
        proof {
            let all = other.offsets.keys();
            assert(all.subrange(0, i as int) =~= all);
            assert forall|k: u64| all.contains(k) == theirs.contains_key(k) by {
            }
            assert(self@.offsets =~= old(self)@.merge(other@).offsets);
        }
    }

    /// Takes out every reference to a variable of which `p` holds.
    pub fn remove_predicate<P: VarPredicate>(&mut self, p: &P)
        requires
            old(self).wf(),
            p.valid(),
        ensures
            final(self).wf(),
            final(self)@ == old(self)@.without(holds_of(*p)),
    {
        self.unbounded.remove_predicate(p);
        remove_predicate_all(&mut self.offsets, p);
        proof {
            let q = holds_of(*p);
            assert(self@.unbounded =~= old(self)@.unbounded.filter(|x: VarRef| !q(x.var)));
            assert forall|k: u64| #[trigger] self@.offsets.contains_key(k) implies self@.offsets[k]
                == old(self)@.without(q).offsets[k] by {
                assert(old(self)@.offsets[k].filter(|x: VarRef| !p.holds(x.var)) =~= old(
                    self,
                )@.offsets[k].filter(|x: VarRef| !q(x.var)));
            }
            assert(self@.offsets =~= old(self)@.without(q).offsets);
        }
    }

    /// Turns every reference to `from` into one to `to`.
    pub fn retarget(&mut self, from: &Var, to: &Var)
        requires
            old(self).wf(),
        ensures
            final(self).wf(),
            final(self)@ == old(self)@.retarget(*from, *to),
    {
        self.unbounded.retarget(from, to);
        change_all(&mut self.offsets, &Change::Retarget(from, to));
        proof {
            assert(self@.offsets =~= old(self)@.retarget(*from, *to).offsets);
        }
    }

    /// Joins every reference to `from` by one to `to`.
    pub fn double(&mut self, from: &Var, to: &Var)
        requires
            old(self).wf(),
        ensures
            final(self).wf(),
            final(self)@ == old(self)@.double(*from, *to),
    {
        self.unbounded.double(from, to);
        change_all(&mut self.offsets, &Change::Double(from, to));
        proof {
            assert(self@.offsets =~= old(self)@.double(*from, *to).offsets);
        }
    }

    /// The variables that some field may point into.
    pub fn pt_to(&self) -> (r: SortedSet<Var>)
        requires
            self.wf(),
        ensures
            r.wf(),
            r@ == self@.targets(),
    {
        let mut out = self.unbounded.vars();
        let mut i: usize = 0;
        while i < self.offsets.len()
            invariant
                i <= self.offsets.keys().len(),
                self.wf(),
                out.wf(),
                forall|v: Var|
                    out@.contains(v) == (vars_of(self.unbounded@).contains(v) || exists|j: int|
                        0 <= j < i && vars_of(#[trigger] self.offsets.vals()[j]@).contains(v)),
            decreases self.offsets.keys().len() - i,
        {
            proof {
                lemma_sets_wf_at(self.offsets, i as int);
            }
            let vars = self.offsets.value_at(i).vars();
            let ghost before = out@;
            let mut j: usize = 0;
            while j < vars.len()
                invariant
                    j <= vars.seq().len(),
                    vars.wf(),
                    out.wf(),
                    forall|v: Var|
                        out@.contains(v) == (before.contains(v) || vars.seq().subrange(
                            0,
                            j as int,
                        ).contains(v)),
                decreases vars.seq().len() - j,
            {
                let ghost prev = out@;
                let ghost done = vars.seq().subrange(0, j as int);
                let ghost next = vars.seq().subrange(0, j + 1);
                out.insert(vars.get(j).copy());
                proof {
                    assert forall|v: Var|
                        out@.contains(v) == (before.contains(v) || next.contains(v)) by {
                        assert(prev.contains(v) == (before.contains(v) || done.contains(v)));
                        if next.contains(v) {
                            let m = choose|m: int| 0 <= m < next.len() && next[m] == v;
                            if m < j {
                                assert(done[m] == v);
                            }
                        }
                        if done.contains(v) {
                            let m = choose|m: int| 0 <= m < done.len() && done[m] == v;
                            assert(next[m] == v);
                        }
                        if v == vars.seq()[j as int] {
                            assert(next[j as int] == v);
                        }
                    }
                }
                j += 1;
            }
            proof {
                assert(vars.seq().subrange(0, j as int) =~= vars.seq());
                assert forall|v: Var|
                    out@.contains(v) == (vars_of(self.unbounded@).contains(v) || exists|j: int|
                        0 <= j < i + 1 && vars_of(#[trigger] self.offsets.vals()[j]@).contains(
                            v,
                        )) by {
                    assert(vars@.contains(v) == vars.seq().contains(v));
                    if before.contains(v) && !vars_of(self.unbounded@).contains(v) {
                        let m = choose|m: int|
                            0 <= m < i && vars_of(#[trigger] self.offsets.vals()[m]@).contains(v);
                        assert(0 <= m < i + 1 && vars_of(self.offsets.vals()[m]@).contains(v));
                    }
                    if vars@.contains(v) {
                        assert(0 <= i < i + 1 && vars_of(self.offsets.vals()[i as int]@).contains(
                            v,
                        ));
                    }
                    if exists|j: int|
                        0 <= j < i + 1 && vars_of(#[trigger] self.offsets.vals()[j]@).contains(v) {
                        let m = choose|m: int|
                            0 <= m < i + 1 && vars_of(#[trigger] self.offsets.vals()[m]@).contains(
                                v,
                            );
                        if m < i {
                            assert(before.contains(v));
                        }
                    }
                }
            }
            i += 1;
        }
        proof {
            assert forall|v: Var| out@.contains(v) == self@.targets().contains(v) by {
                if vars_of(self.unbounded@).contains(v) {
                    let x = choose|x: VarRef| self.unbounded@.contains(x) && x.var == v;
                    assert(self@.refers(x));
                }
                if exists|j: int|
                    0 <= j < i && vars_of(#[trigger] self.offsets.vals()[j]@).contains(v) {
                    let j = choose|j: int|
                        0 <= j < i && vars_of(#[trigger] self.offsets.vals()[j]@).contains(v);
                    let x = choose|x: VarRef| self.offsets.vals()[j]@.contains(x) && x.var == v;
                    lemma_set_views_at(self.offsets, j);
                    let k = self.offsets.keys()[j];
                    assert(self@.offsets.contains_key(k) && self@.offsets[k].contains(x));
                    assert(self@.refers(x));
                }
                if self@.targets().contains(v) {
                    let x = choose|x: VarRef| self@.refers(x) && x.var == v;
                    if !self.unbounded@.contains(x) {
                        let k = choose|k: u64| #[trigger]
                            self@.offsets.contains_key(k) && self@.offsets[k].contains(x);
                        self.offsets.lemma_key(k);
                        let j = crate::sorted_map::slot(self.offsets.keys(), k);
                        assert(vars_of(self.offsets.vals()[j]@).contains(v));
                    }
                }
            }
            assert(out@ =~= self@.targets());
        }
        out
    }
}

impl Clone for FieldMap {
    fn clone(&self) -> (r: FieldMap)
        ensures
            self.wf() ==> r.wf() && r@ == self@,
    {
        self.dup()
    }
}

} // verus!
