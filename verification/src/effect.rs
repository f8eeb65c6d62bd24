//! The effect of a function on the allocation sites: which it certainly
//! passes, and which it may pass.

use vstd::prelude::*;
use crate::datalog::{
    EffectApplyEffectIn,
    EffectApplyEffectOut,
    EffectMallocIn,
    EffectMallocOut,
    EffectRemoteApplyEffectIn,
    EffectRemoteApplyEffectOut,
    EffectUpdatePtsIn,
    EffectUpdatePtsOut,
};
use crate::load::{Loc, malloc_name, spec_malloc_name};
use crate::points_to::{PointsToState, PointsToView};
use crate::sorted_set::{SortedSet, elements};

verus! {

/// The mathematical content of an `Effect`.
pub struct EffectView {
    /// The sites at which the function certainly allocates.
    pub does_malloc: Set<Loc>,
    /// The sites at which the function may allocate.
    pub maybe_malloc: Set<Loc>,
}

impl EffectView {
    /// The effect of doing nothing.
    pub open spec fn nop() -> EffectView {
        EffectView { does_malloc: Set::empty(), maybe_malloc: Set::empty() }
    }

    /// The effect of taking one of two paths: a site is certain where it
    /// is certain on both, and possible where it is possible on either or
    /// certain on one only.
    pub open spec fn merge(self, other: EffectView) -> EffectView {
        EffectView {
            does_malloc: self.does_malloc.intersect(other.does_malloc),
            maybe_malloc: self.maybe_malloc.union(other.maybe_malloc).union(
                self.does_malloc.difference(other.does_malloc),
            ).union(other.does_malloc.difference(self.does_malloc)),
        }
    }

    /// The effect followed by a certain allocation at `site`.
    pub open spec fn malloc(self, site: Loc) -> EffectView {
        EffectView {
            does_malloc: self.does_malloc.insert(site),
            maybe_malloc: self.maybe_malloc.remove(site),
        }
    }

    /// The effect followed by a possible allocation at `site`.
    pub open spec fn maybe_malloc(self, site: Loc) -> EffectView {
        EffectView {
            does_malloc: self.does_malloc.remove(site),
            maybe_malloc: self.maybe_malloc.insert(site),
        }
    }

    /// The effect followed by `other`: what `other` does for certain
    /// becomes certain, and what it may do becomes possible.
    pub open spec fn apply(self, other: EffectView) -> EffectView {
        EffectView {
            does_malloc: self.does_malloc.union(other.does_malloc).difference(other.maybe_malloc),
            maybe_malloc: self.maybe_malloc.difference(other.does_malloc).union(
                other.maybe_malloc,
            ),
        }
    }
}

/// Merging an effect with itself changes nothing.
pub proof fn lemma_effect_merge_self(e: EffectView)
    ensures
        e.merge(e) == e,
{
    assert(e.merge(e).does_malloc =~= e.does_malloc);
    assert(e.merge(e).maybe_malloc =~= e.maybe_malloc);
}

/// The state after the allocations of `sites` have aged, first to last.
pub open spec fn age_sites(pts: PointsToView, sites: Seq<Loc>) -> PointsToView
    decreases sites.len(),
{
    if sites.len() == 0 {
        pts
    } else {
        age_sites(pts, sites.drop_last()).make_stale(sites.last())
    }
}

/// The state after the allocations of `sites` have been doubled, first to last.
pub open spec fn dup_sites(pts: PointsToView, sites: Seq<Loc>) -> PointsToView
    decreases sites.len(),
{
    if sites.len() == 0 {
        pts
    } else {
        dup_sites(pts, sites.drop_last()).make_dup(sites.last())
    }
}

/// The state after a call with the effect `effect`: the allocations of the
/// sites certainly passed age, those of the sites possibly passed are
/// doubled, each in ascending order of the sites.
pub open spec fn update_spec(pts: PointsToView, effect: EffectView) -> PointsToView {
    dup_sites(age_sites(pts, elements(effect.does_malloc)), elements(effect.maybe_malloc))
}

/// The effect of a function on the allocation sites.
#[derive(Debug, PartialEq, Eq, PartialOrd, Ord, Hash)]
pub struct Effect {
    does_malloc: SortedSet<Loc>,
    maybe_malloc: SortedSet<Loc>,
}

impl View for Effect {
    type V = EffectView;

    closed spec fn view(&self) -> EffectView {
        EffectView { does_malloc: self.does_malloc@, maybe_malloc: self.maybe_malloc@ }
    }
}

impl Effect {
    /// Both sets are held in ascending order.
    pub closed spec fn wf(&self) -> bool {
        self.does_malloc.wf() && self.maybe_malloc.wf()
    }

    /// The effect of doing nothing.
    pub fn nop() -> (r: Effect)
        ensures
            r.wf(),
            r@ == EffectView::nop(),
    {
        Effect { does_malloc: SortedSet::new(), maybe_malloc: SortedSet::new() }
    }

    /// An exact copy of the effect.
    pub fn dup(&self) -> (r: Effect)
        ensures
            r@ == self@,
            r.wf() == self.wf(),
    {
        Effect { does_malloc: self.does_malloc.dup(), maybe_malloc: self.maybe_malloc.dup() }
    }

    /// The effect of taking one of two paths.
    pub fn merge(&self, other: &Effect) -> (r: Effect)
        requires
            self.wf(),
            other.wf(),
        ensures
            r.wf(),
            r@ == self@.merge(other@),
    {
        let does_malloc = self.does_malloc.intersection(&other.does_malloc);
        let mut maybe_malloc = self.maybe_malloc.dup();
        maybe_malloc.union_with(&other.maybe_malloc);
        let mut ours = self.does_malloc.dup();
        ours.remove_all(&other.does_malloc);
        maybe_malloc.union_with(&ours);
        let mut theirs = other.does_malloc.dup();
        theirs.remove_all(&self.does_malloc);
        maybe_malloc.union_with(&theirs);
        Effect { does_malloc, maybe_malloc }
    }

    /// Follows the effect by `other`.
    pub fn apply(&mut self, other: &Effect)
        requires
            old(self).wf(),
            other.wf(),
        ensures
            final(self).wf(),
            final(self)@ == old(self)@.apply(other@),
    {
        self.does_malloc.union_with(&other.does_malloc);
        self.maybe_malloc.remove_all(&other.does_malloc);
        self.does_malloc.remove_all(&other.maybe_malloc);
        self.maybe_malloc.union_with(&other.maybe_malloc);
    }

    /// Follows the effect by a certain allocation at `site`.
    pub fn malloc(&mut self, site: &Loc)
        requires
            old(self).wf(),
        ensures
            final(self).wf(),
            final(self)@ == old(self)@.malloc(*site),
    {
        self.does_malloc.insert(site.copy());
        self.maybe_malloc.remove(site);
    }

    /// Follows the effect by a possible allocation at `site`.
    pub fn maybe_malloc(&mut self, site: &Loc)
        requires
            old(self).wf(),
        ensures
            final(self).wf(),
            final(self)@ == old(self)@.maybe_malloc(*site),
    {
        self.does_malloc.remove(site);
        self.maybe_malloc.insert(site.copy());
    }

    /// Makes on `pts` the changes of a call with this effect.
    pub fn update(&self, pts: &mut PointsToState)
        requires
            self.wf(),
            old(pts).wf(),
        ensures
            final(pts).wf(),
            final(pts)@ == update_spec(old(pts)@, self@),
    {
        proof {
            self.does_malloc.lemma_seq();
            self.maybe_malloc.lemma_seq();
        }
        let ghost does = self.does_malloc.seq();
        let ghost maybe = self.maybe_malloc.seq();
        let mut i: usize = 0;
        while i < self.does_malloc.len()
            invariant
                i <= does.len(),
                does == self.does_malloc.seq(),
                pts.wf(),
                pts@ == age_sites(old(pts)@, does.subrange(0, i as int)),
            decreases does.len() - i,
        {
            proof {
                assert(does.subrange(0, i + 1).drop_last() =~= does.subrange(0, i as int));
                assert(does.subrange(0, i + 1).last() == does[i as int]);
            }
            pts.make_stale(self.does_malloc.get(i));
            i += 1;
        }
        assert(does.subrange(0, i as int) =~= does);
        let ghost aged = pts@;
        let mut j: usize = 0;
        while j < self.maybe_malloc.len()
            invariant
                j <= maybe.len(),
                maybe == self.maybe_malloc.seq(),
                pts.wf(),
                pts@ == dup_sites(aged, maybe.subrange(0, j as int)),
            decreases maybe.len() - j,
        {
            proof {
                assert(maybe.subrange(0, j + 1).drop_last() =~= maybe.subrange(0, j as int));
                assert(maybe.subrange(0, j + 1).last() == maybe[j as int]);
            }
            pts.make_dup(self.maybe_malloc.get(j));
            j += 1;
        }
        assert(maybe.subrange(0, j as int) =~= maybe);
    }
}

impl Clone for Effect {
    fn clone(&self) -> (r: Effect)
        ensures
            r@ == self@,
            r.wf() == self.wf(),
    {
        self.dup()
    }
}

/// The effect of the caller followed by that of the call.
pub fn apply_effect(i: &EffectApplyEffectIn) -> (r: Vec<EffectApplyEffectOut>)
    requires
        i.effect.wf(),
        i.effect_call.wf(),
    ensures
        r@.len() == 1,
        r@[0].effect2.wf(),
        r@[0].effect2@ == i.effect@.apply(i.effect_call@),
{
    let mut effect2 = i.effect.dup();
    effect2.apply(i.effect_call);
    let mut out: Vec<EffectApplyEffectOut> = Vec::new();
    out.push(EffectApplyEffectOut { effect2 });
    out
}

/// The effect of the caller followed by that of a call to the function
/// called `name` in another file; nothing where `name` is an allocator's.
pub fn remote_apply_effect(i: &EffectRemoteApplyEffectIn) -> (r: Vec<EffectRemoteApplyEffectOut>)
    requires
        i.effect.wf(),
        i.effect_call.wf(),
    ensures
        if spec_malloc_name(i.name@) {
            r@.len() == 0
        } else {
            r@.len() == 1 && r@[0].effect2.wf() && r@[0].effect2@ == i.effect@.apply(
                i.effect_call@,
            )
        },
{
    let mut out: Vec<EffectRemoteApplyEffectOut> = Vec::new();
    if !malloc_name(i.name) {
        let mut effect2 = i.effect.dup();
        effect2.apply(i.effect_call);
        out.push(EffectRemoteApplyEffectOut { effect2 });
    }
    out
}

/// The effect followed by a certain allocation at `local`.
pub fn malloc(i: &EffectMallocIn) -> (r: Vec<EffectMallocOut>)
    requires
        i.effect.wf(),
    ensures
        r@.len() == 1,
        r@[0].effect2.wf(),
        r@[0].effect2@ == i.effect@.malloc(*i.local),
{
    let mut effect2 = i.effect.dup();
    effect2.malloc(i.local);
    let mut out: Vec<EffectMallocOut> = Vec::new();
    out.push(EffectMallocOut { effect2 });
    out
}

/// The state after a call with the effect given.
pub fn update_pts(i: &EffectUpdatePtsIn) -> (r: Vec<EffectUpdatePtsOut>)
    requires
        i.effect.wf(),
        i.pts.wf(),
    ensures
        r@.len() == 1,
        r@[0].pts2.wf(),
        r@[0].pts2@ == update_spec(i.pts@, i.effect@),
{
    let mut pts2 = i.pts.dup();
    i.effect.update(&mut pts2);
    let mut out: Vec<EffectUpdatePtsOut> = Vec::new();
    out.push(EffectUpdatePtsOut { pts2 });
    out
}

} // verus!
