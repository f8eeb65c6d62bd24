//! The transfer function: what the constraints of an instruction make of
//! the points-to state that reaches it.

use vstd::prelude::*;
use crate::constraints::{
    Constraint,
    ConstraintView,
    VarPath,
    VarPathView,
    constraint_views,
    path_views,
};
use crate::datalog::{
    FlowBasePtsIn,
    FlowBasePtsOut,
    FlowCountIn,
    FlowCountOut,
    FlowDynClearIn,
    FlowDynClearOut,
    FlowEmptyPtsIn,
    FlowEmptyPtsOut,
    FlowIsFreedIn,
    FlowIsFreedOut,
    FlowPromoteLocIn,
    FlowPromoteLocOut,
    FlowStackPurgeIn,
    FlowStackPurgeOut,
    FlowXferIn,
    FlowXferOut,
};
use crate::load::Loc;
use crate::points_to::{PointsToState, PointsToView};
use crate::regs::spec_args;
use crate::sorted_set::{elements, members};
use crate::var::{Var, holds_of};
use crate::var_ref::{VarRef, VarSet, widen_extend};

verus! {

/// The offset `base` moved by `off`, wrapping round; unknown where either is.
pub open spec fn offset_sum(base: Option<u64>, off: Option<u64>) -> Option<u64> {
    match (base, off) {
        (Some(b), Some(o)) => Some(b.wrapping_add(o)),
        _ => None,
    }
}

/// Moves the offset `base` by `off`; an unknown `off` makes it unknown.
pub fn off_plus(base: &mut Option<u64>, off: Option<u64>)
    ensures
        *final(base) == offset_sum(*old(base), off),
{
    let moved = match (*base, off) {
        (Some(b), Some(o)) => Some(b.wrapping_add(o)),
        _ => None,
    };
    *base = moved;
}

/// The fields that the path `vp` names in the state `pts`: a path of at
/// most `floor` offsets names the field of its base at its first offset;
/// a longer one names what the paths name that start at each thing the
/// field may point to, in ascending order, with the offset pointed at added
/// to the next offset of the path.
pub open spec fn resolve(pts: PointsToView, vp: VarPathView, floor: nat) -> Seq<VarRef>
    decreases vp.offsets.len(), 0nat,
{
    if vp.offsets.len() <= floor || vp.offsets.len() <= 1 {
        seq![VarRef { var: vp.base, offset: vp.offsets[0] }]
    } else {
        resolve_each(
            pts,
            elements(pts.get(VarRef { var: vp.base, offset: vp.offsets[0] })),
            vp.offsets.drop_first(),
            floor,
        )
    }
}

/// The fields named by the paths that start at each of `refs` and go on
/// with the offsets `rest`.
pub open spec fn resolve_each(
    pts: PointsToView,
    refs: Seq<VarRef>,
    rest: Seq<Option<u64>>,
    floor: nat,
) -> Seq<VarRef>
    decreases rest.len(), 1 + refs.len(),
{
    if refs.len() == 0 || rest.len() == 0 {
        Seq::empty()
    } else {
        resolve_each(pts, refs.drop_last(), rest, floor) + resolve(
            pts,
            VarPathView {
                base: refs.last().var,
                offsets: rest.update(0, offset_sum(rest[0], refs.last().offset)),
            },
            floor,
        )
    }
}

/// The state after the allocation of each fresh allocation among the bases
/// of `rhss` has aged, first to last.
pub open spec fn age_all(pts: PointsToView, rhss: Seq<VarPathView>) -> PointsToView
    decreases rhss.len(),
{
    if rhss.len() == 0 {
        pts
    } else {
        let aged = age_all(pts, rhss.drop_last());
        match rhss.last().base {
            Var::Alloc { site, stale } => if stale {
                aged
            } else {
                aged.make_stale(site)
            },
            _ => aged,
        }
    }
}

/// Everything the paths `rhss` name in `pts`, gathered with widening.
pub open spec fn resolve_all(pts: PointsToView, rhss: Seq<VarPathView>) -> Set<VarRef>
    decreases rhss.len(),
{
    if rhss.len() == 0 {
        Set::empty()
    } else {
        widen_extend(resolve_all(pts, rhss.drop_last()), resolve(pts, rhss.last(), 1))
    }
}

/// The state after each of `lhsses` is made to point to `rhses` only.
pub open spec fn set_each(pts: PointsToView, lhsses: Seq<VarRef>, rhses: Set<VarRef>) -> PointsToView
    decreases lhsses.len(),
{
    if lhsses.len() == 0 {
        pts
    } else {
        set_each(pts, lhsses.drop_last(), rhses).set_alias(lhsses.last(), rhses)
    }
}

/// The state after `rhses` is added to what each of `lhsses` may point to.
pub open spec fn extend_each(
    pts: PointsToView,
    lhsses: Seq<VarRef>,
    rhses: Set<VarRef>,
) -> PointsToView
    decreases lhsses.len(),
{
    if lhsses.len() == 0 {
        pts
    } else {
        extend_each(pts, lhsses.drop_last(), rhses).extend_alias(lhsses.last(), rhses)
    }
}

/// The state after the constraint `c`. Without right-hand sides the base
/// of the left-hand side is dropped. Otherwise the fresh allocations on
/// the right age first; then what the right-hand sides name is written to
/// what the left-hand side names: in place of what was there where that is
/// one field, added to it where they are several.
pub open spec fn apply_spec(pts: PointsToView, c: ConstraintView) -> PointsToView {
    if c.rhss.len() == 0 {
        pts.clobber(c.lhs.base)
    } else {
        let aged = age_all(pts, c.rhss);
        let rhses = resolve_all(aged, c.rhss);
        let lhsses = resolve(aged, c.lhs, 2);
        if lhsses.len() > 1 {
            extend_each(aged, lhsses, rhses)
        } else {
            set_each(aged, lhsses, rhses)
        }
    }
}

/// The state after the constraints `cs`, first to last.
pub open spec fn apply_seq(pts: PointsToView, cs: Seq<ConstraintView>) -> PointsToView
    decreases cs.len(),
{
    if cs.len() == 0 {
        pts
    } else {
        apply_spec(apply_seq(pts, cs.drop_last()), cs.last())
    }
}

/// The state that leaves an instruction with the constraints `cs` along
/// an edge that invalidates the variables of which `kill` holds, where
/// `vars` are live: the constraints are applied, the temporaries dropped,
/// the unreachable and the dead bases dropped, and the edge's kills made.
pub open spec fn xfer_spec(
    pts: PointsToView,
    cs: Seq<ConstraintView>,
    vars: Seq<Var>,
    kill: spec_fn(Var) -> bool,
) -> PointsToView {
    apply_seq(pts, cs).remove_temps().canonicalize().purge_dead(vars).remove_predicate(kill)
}

/// Whether the transfer function can take the constraint: its left-hand
/// side dereferences at least once and ends at offset zero, and each
/// right-hand side has an offset.
pub open spec fn constraint_ok(c: ConstraintView) -> bool {
    &&& c.lhs.offsets.len() >= 2
    &&& c.lhs.offsets.last() == Some(0u64)
    &&& forall|k: int| 0 <= k < c.rhss.len() ==> (#[trigger] c.rhss[k]).offsets.len() >= 1
}

/// The offsets of `v` from the second on.
fn tail_offsets(v: &Vec<Option<u64>>) -> (r: Vec<Option<u64>>)
    requires
        v@.len() >= 1,
    ensures
        r@ == v@.drop_first(),
{
    let mut out: Vec<Option<u64>> = Vec::new();
    let mut i: usize = 1;
    while i < v.len()
        invariant
            1 <= i <= v@.len(),
            out@ == v@.subrange(1, i as int),
        decreases v@.len() - i,
    {
        out.push(v[i]);
        assert(out@ =~= v@.subrange(1, i + 1));
        i += 1;
    }
    assert(v@.subrange(1, i as int) =~= v@.drop_first());
    out
}

/// The fields that the path `vp` names in `pts`.
fn resolve_path(pts: &PointsToState, vp: &VarPath, floor: usize) -> (r: Vec<VarRef>)
    requires
        pts.wf(),
        vp.offsets@.len() >= 1,
    ensures
        r@ == resolve(pts@, vp@, floor as nat),
    decreases vp.offsets@.len(),
{
    if vp.offsets.len() <= floor || vp.offsets.len() <= 1 {
        let mut out: Vec<VarRef> = Vec::new();
        out.push(VarRef { var: vp.base.copy(), offset: vp.offsets[0] });
        assert(out@ =~= seq![VarRef { var: vp.base, offset: vp.offsets@[0] }]);
        return out;
    }
    let vr0 = VarRef { var: vp.base.copy(), offset: vp.offsets[0] };
    let refs = pts.get(&vr0);
    proof {
        refs.lemma_seq();
    }
    let ghost q = refs.seq();
    let ghost rest = vp.offsets@.drop_first();
    let mut out: Vec<VarRef> = Vec::new();
    let mut i: usize = 0;
    while i < refs.len()
        invariant
            i <= q.len(),
            q == refs.seq(),
            pts.wf(),
            vp.offsets@.len() >= 2,
            rest == vp.offsets@.drop_first(),
            out@ == resolve_each(pts@, q.subrange(0, i as int), rest, floor as nat),
        decreases q.len() - i,
    {
        let vr = refs.get(i);
        let mut offsets = tail_offsets(&vp.offsets);
        let mut first = offsets[0];
        off_plus(&mut first, vr.offset);
        offsets.set(0, first);
        let vpp = VarPath { base: vr.var.copy(), offsets };
        let mut sub = resolve_path(pts, &vpp, floor);
        proof {
            assert(q.subrange(0, i + 1).drop_last() =~= q.subrange(0, i as int));
            assert(q.subrange(0, i + 1).last() == q[i as int]);
            assert(vpp@.offsets =~= rest.update(0, offset_sum(rest[0], q[i as int].offset)));
        }
        out.append(&mut sub);
        i += 1;
    }
    assert(q.subrange(0, i as int) =~= q);
    out
}

/// The fields that an assignment to `vp` writes.
pub fn lhs_resolve(pts: &PointsToState, vp: VarPath) -> (r: Vec<VarRef>)
    requires
        pts.wf(),
        vp.offsets@.len() >= 2,
        vp.offsets@.last() == Some(0u64),
    ensures
        r@ == resolve(pts@, vp@, 2),
{
    resolve_path(pts, &vp, 2)
}

/// The references that `vp` evaluates to.
pub fn rhs_resolve(pts: &PointsToState, vp: VarPath) -> (r: Vec<VarRef>)
    requires
        pts.wf(),
        vp.offsets@.len() >= 1,
    ensures
        r@ == resolve(pts@, vp@, 1),
{
    resolve_path(pts, &vp, 1)
}

/// Applies the constraint `c` to `pts`.
pub fn apply(pts: &mut PointsToState, c: &Constraint)
    requires
        old(pts).wf(),
        constraint_ok(c@),
    ensures
        final(pts).wf(),
        final(pts)@ == apply_spec(old(pts)@, c@),
{
    if c.rhss.len() == 0 {
        pts.clobber(&c.lhs.base);
        return;
    }
    let ghost rhss = path_views(c.rhss@);
    let mut k: usize = 0;
    while k < c.rhss.len()
        invariant
            k <= c.rhss@.len(),
            pts.wf(),
            rhss == path_views(c.rhss@),
            pts@ == age_all(old(pts)@, rhss.subrange(0, k as int)),
        decreases c.rhss@.len() - k,
    {
        proof {
            assert(rhss.subrange(0, k + 1).drop_last() =~= rhss.subrange(0, k as int));
            assert(rhss.subrange(0, k + 1).last() == c.rhss@[k as int]@);
        }
        match &c.rhss[k].base {
            Var::Alloc { site, stale } => {
                if !*stale {
                    pts.make_stale(site);
                }
            },
            _ => {},
        }
        k += 1;
    }
    assert(rhss.subrange(0, k as int) =~= rhss);
    let ghost aged = pts@;
    let mut rhses = VarSet::new();
    let mut k: usize = 0;
    while k < c.rhss.len()
        invariant
            k <= c.rhss@.len(),
            pts.wf(),
            pts@ == aged,
            rhses.wf(),
            constraint_ok(c@),
            rhss == path_views(c.rhss@),
            rhses@ == resolve_all(aged, rhss.subrange(0, k as int)),
        decreases c.rhss@.len() - k,
    {
        proof {
            assert(rhss.subrange(0, k + 1).drop_last() =~= rhss.subrange(0, k as int));
            assert(rhss.subrange(0, k + 1).last() == c.rhss@[k as int]@);
            assert(rhss[k as int].offsets.len() >= 1);
        }
        let found = rhs_resolve(pts, c.rhss[k].dup());
        rhses.extend(&found);
        k += 1;
    }
    assert(rhss.subrange(0, k as int) =~= rhss);
    let lhsses = lhs_resolve(pts, c.lhs.dup());
    let extend = lhsses.len() > 1;
    let mut k: usize = 0;
    while k < lhsses.len()
        invariant
            k <= lhsses@.len(),
            pts.wf(),
            rhses.wf(),
            pts@ == if extend {
                extend_each(aged, lhsses@.subrange(0, k as int), rhses@)
            } else {
                set_each(aged, lhsses@.subrange(0, k as int), rhses@)
            },
        decreases lhsses@.len() - k,
    {
        proof {
            assert(lhsses@.subrange(0, k + 1).drop_last() =~= lhsses@.subrange(0, k as int));
            assert(lhsses@.subrange(0, k + 1).last() == lhsses@[k as int]);
        }
        if extend {
            pts.extend_alias(lhsses[k].copy(), &rhses);
        } else {
            pts.set_alias(lhsses[k].copy(), rhses.dup());
        }
        k += 1;
    }
    assert(lhsses@.subrange(0, k as int) =~= lhsses@);
}

/// The state that leaves the instruction.
pub fn xfer(i: &FlowXferIn) -> (r: Vec<FlowXferOut>)
    requires
        i.pts.wf(),
        forall|k: int| 0 <= k < i.cs@.len() ==> constraint_ok(#[trigger] i.cs@[k]@),
    ensures
        r@.len() == 1,
        r@[0].pts2.wf(),
        r@[0].pts2@ == xfer_spec(i.pts@, constraint_views(i.cs@), i.vars@, holds_of(*i.ks)),
{
    let mut pts = i.pts.dup();
    let ghost cs = constraint_views(i.cs@);
    let mut k: usize = 0;
    while k < i.cs.len()
        invariant
            k <= i.cs@.len(),
            pts.wf(),
            cs == constraint_views(i.cs@),
            forall|k: int| 0 <= k < i.cs@.len() ==> constraint_ok(#[trigger] i.cs@[k]@),
            pts@ == apply_seq(i.pts@, cs.subrange(0, k as int)),
        decreases i.cs@.len() - k,
    {
        proof {
            assert(cs.subrange(0, k + 1).drop_last() =~= cs.subrange(0, k as int));
            assert(cs.subrange(0, k + 1).last() == i.cs@[k as int]@);
        }
        apply(&mut pts, &i.cs[k]);
        k += 1;
    }
    assert(cs.subrange(0, k as int) =~= cs);
    pts.remove_temps();
    pts.canonicalize();
    pts.purge_dead(i.vars.as_slice());
    i.ks.purge_pts(&mut pts);
    let mut out: Vec<FlowXferOut> = Vec::new();
    out.push(FlowXferOut { pts2: pts });
    out
}

/// The sites at which what `v` points to may have been freed.
pub fn is_freed(i: &FlowIsFreedIn) -> (r: Vec<FlowIsFreedOut>)
    requires
        i.pts.wf(),
    ensures
        r@.len() == i.pts@.free_sites(*i.v).len(),
        forall|k: int| 0 <= k < r@.len() ==> (#[trigger] r@[k]).loc == i.pts@.free_sites(*i.v)[k],
        forall|site: Loc|
            (exists|k: int| 0 <= k < r@.len() && (#[trigger] r@[k]).loc == site)
                == i.pts@.freed_through(*i.v, site),
{
    let sites = i.pts.free_sites(i.v);
    let mut out: Vec<FlowIsFreedOut> = Vec::new();
    let mut k: usize = 0;
    while k < sites.len()
        invariant
            k <= sites@.len(),
            out@.len() == k,
            forall|j: int| 0 <= j < k ==> (#[trigger] out@[j]).loc == sites@[j],
        decreases sites@.len() - k,
    {
        out.push(FlowIsFreedOut { loc: sites[k].copy() });
        k += 1;
    }
    proof {
        assert forall|site: Loc|
            (exists|k: int| 0 <= k < out@.len() && (#[trigger] out@[k]).loc == site)
                == i.pts@.freed_through(*i.v, site) by {
            if sites@.contains(site) {
                let j = choose|j: int| 0 <= j < sites@.len() && sites@[j] == site;
                assert(out@[j].loc == site);
            }
            if exists|k: int| 0 <= k < out@.len() && (#[trigger] out@[k]).loc == site {
                let j = choose|k: int| 0 <= k < out@.len() && (#[trigger] out@[k]).loc == site;
                assert(sites@[j] == site);
            }
        }
    }
    out
}

/// The state a callee is entered with from the state `pts` at the call.
pub open spec fn stack_purge_spec(pts: PointsToView, dst: Loc) -> PointsToView {
    pts.clear_live().clear_frames().only_regs(spec_args()).drop_stack().add_live(
        pts.pt_to().filter(|v: Var| v is Alloc || v is StackSlot),
    ).add_frame(dst)
}

/// The state a callee is entered with: no frame but its own is live, only
/// argument registers are bases, and the allocations and stack slots that
/// were pointed to at the call are kept alive.
pub fn stack_purge(i: &FlowStackPurgeIn) -> (r: Vec<FlowStackPurgeOut>)
    requires
        i.pts.wf(),
    ensures
        r@.len() == 1,
        r@[0].pts2.wf(),
        r@[0].pts2@ == stack_purge_spec(i.pts@, *i.dst),
{
    let mut pts = i.pts.dup();
    pts.clear_live();
    pts.clear_frames();
    let args = crate::regs::args();
    pts.only_regs(args.as_slice());
    pts.drop_stack();
    let pointed = i.pts.pt_to();
    let mut new_live: Vec<Var> = Vec::new();
    let mut k: usize = 0;
    while k < pointed.len()
        invariant
            k <= pointed.seq().len(),
            forall|v: Var|
                new_live@.contains(v) == (pointed.seq().subrange(0, k as int).contains(v) && (
                v is Alloc || v is StackSlot)),
        decreases pointed.seq().len() - k,
    {
        let v = pointed.get(k);
        let ghost prev = new_live@;
        let ghost done = pointed.seq().subrange(0, k as int);
        let ghost next = pointed.seq().subrange(0, k + 1);
        if v.is_dyn() || v.is_stack() {
            new_live.push(v.copy());
        }
        proof {
            assert forall|x: Var|
                new_live@.contains(x) == (next.contains(x) && (x is Alloc || x is StackSlot)) by {
                assert(prev.contains(x) == (done.contains(x) && (x is Alloc || x is StackSlot)));
                if prev.contains(x) {
                    let m = choose|m: int| 0 <= m < prev.len() && prev[m] == x;
                    assert(new_live@[m] == x);
                }
                if new_live@.contains(x) {
                    let m = choose|m: int| 0 <= m < new_live@.len() && new_live@[m] == x;
                    if m < prev.len() {
                        assert(prev[m] == x);
                    }
                }
                if done.contains(x) {
                    let m = choose|m: int| 0 <= m < done.len() && done[m] == x;
                    assert(next[m] == x);
                }
                if next.contains(x) {
                    let m = choose|m: int| 0 <= m < next.len() && next[m] == x;
                    if m < k {
                        assert(done[m] == x);
                    }
                }
                if x == pointed.seq()[k as int] {
                    assert(next[k as int] == x);
                    if x is Alloc || x is StackSlot {
                        assert(new_live@[new_live@.len() - 1] == x);
                    }
                }
            }
        }
        k += 1;
    }
    proof {
        assert(pointed.seq().subrange(0, k as int) =~= pointed.seq());
        assert(members(new_live@) =~= i.pts@.pt_to().filter(|v: Var| v is Alloc || v is StackSlot));
    }
    pts.add_live(&new_live);
    pts.add_frame(i.dst.copy());
    let mut out: Vec<FlowStackPurgeOut> = Vec::new();
    out.push(FlowStackPurgeOut { pts2: pts });
    out
}

/// The state with nothing kept alive and the frame of `base` alone live.
pub fn dyn_clear(i: &FlowDynClearIn) -> (r: Vec<FlowDynClearOut>)
    requires
        i.pts.wf(),
    ensures
        r@.len() == 1,
        r@[0].pts2.wf(),
        r@[0].pts2@ == i.pts@.clear_live().clear_frames().add_frame(*i.base),
{
    let mut pts = i.pts.dup();
    pts.clear_live();
    pts.clear_frames();
    pts.add_frame(i.base.copy());
    let mut out: Vec<FlowDynClearOut> = Vec::new();
    out.push(FlowDynClearOut { pts2: pts });
    out
}

/// The state of a function just entered at the location.
pub fn base_pts(i: &FlowBasePtsIn) -> (r: Vec<FlowBasePtsOut>)
    ensures
        r@.len() == 1,
        r@[0].pts.wf(),
        r@[0].pts@ == PointsToView::new(*i.loc),
{
    let mut out: Vec<FlowBasePtsOut> = Vec::new();
    out.push(FlowBasePtsOut { pts: PointsToState::new(i.loc.copy()) });
    out
}

/// The location as a singleton.
pub fn promote_loc(i: &FlowPromoteLocIn) -> (r: Vec<FlowPromoteLocOut>)
    ensures
        r@.len() == 1,
        r@[0].src_promoted@ == seq![*i.src],
{
    let mut locs: Vec<Loc> = Vec::new();
    locs.push(i.src.copy());
    assert(locs@ =~= seq![*i.src]);
    let mut out: Vec<FlowPromoteLocOut> = Vec::new();
    out.push(FlowPromoteLocOut { src_promoted: locs });
    out
}

/// The number of predecessors.
pub fn count(i: &FlowCountIn) -> (r: Vec<FlowCountOut>)
    ensures
        r@.len() == 1,
        r@[0].count == i.preds@.len(),
{
    let mut out: Vec<FlowCountOut> = Vec::new();
    out.push(FlowCountOut { count: i.preds.len() });
    out
}

/// The empty state with the frame of the location live.
pub fn empty_pts(i: &FlowEmptyPtsIn) -> (r: Vec<FlowEmptyPtsOut>)
    ensures
        r@.len() == 1,
        r@[0].pts.wf(),
        r@[0].pts@ == PointsToView::new(*i.loc),
{
    let mut out: Vec<FlowEmptyPtsOut> = Vec::new();
    out.push(FlowEmptyPtsOut { pts: PointsToState::new(i.loc.copy()) });
    out
}

/// Whether two states have the same live frames and keep the same
/// variables alive, allocations aside.
pub open spec fn same_context(a: PointsToView, b: PointsToView) -> bool {
    &&& a.frames == b.frames
    &&& forall|v: Var| !(v is Alloc) ==> a.super_live.contains(v) == b.super_live.contains(v)
}

proof fn lemma_age_all_context(pts: PointsToView, rhss: Seq<VarPathView>)
    ensures
        same_context(pts, age_all(pts, rhss)),
    decreases rhss.len(),
{
    if rhss.len() > 0 {
        lemma_age_all_context(pts, rhss.drop_last());
    }
}

proof fn lemma_set_each_context(pts: PointsToView, lhsses: Seq<VarRef>, rhses: Set<VarRef>)
    ensures
        same_context(pts, set_each(pts, lhsses, rhses)),
        same_context(pts, extend_each(pts, lhsses, rhses)),
    decreases lhsses.len(),
{
    if lhsses.len() > 0 {
        lemma_set_each_context(pts, lhsses.drop_last(), rhses);
    }
}

proof fn lemma_apply_seq_context(pts: PointsToView, cs: Seq<ConstraintView>)
    ensures
        same_context(pts, apply_seq(pts, cs)),
    decreases cs.len(),
{
    if cs.len() > 0 {
        lemma_apply_seq_context(pts, cs.drop_last());
        let mid = apply_seq(pts, cs.drop_last());
        let c = cs.last();
        if c.rhss.len() > 0 {
            lemma_age_all_context(mid, c.rhss);
            let aged = age_all(mid, c.rhss);
            lemma_set_each_context(aged, resolve(aged, c.lhs, 2), resolve_all(aged, c.rhss));
        }
    }
}

/// No temporary is a base of the state that leaves an instruction.
pub proof fn lemma_xfer_no_temps(
    pts: PointsToView,
    cs: Seq<ConstraintView>,
    vars: Seq<Var>,
    kill: spec_fn(Var) -> bool,
    k: Var,
)
    requires
        xfer_spec(pts, cs, vars, kill).inner.contains_key(k),
    ensures
        !(k is Temp),
{
    let applied = apply_seq(pts, cs);
    let cleaned = applied.remove_temps();
    let canon = cleaned.canonicalize();
    let purged = canon.purge_dead(vars);
    assert(purged.inner.contains_key(k));
    assert(canon.inner.contains_key(k));
    assert(cleaned.inner.contains_key(k));
}

/// Every base of the state that leaves an instruction is an allocation,
/// is live at the instruction, or is kept alive.
pub proof fn lemma_xfer_live(
    pts: PointsToView,
    cs: Seq<ConstraintView>,
    vars: Seq<Var>,
    kill: spec_fn(Var) -> bool,
    k: Var,
)
    requires
        xfer_spec(pts, cs, vars, kill).inner.contains_key(k),
    ensures
        k is Alloc || vars.contains(k) || xfer_spec(pts, cs, vars, kill).super_live.contains(k),
        !kill(k),
{
    let applied = apply_seq(pts, cs);
    let cleaned = applied.remove_temps();
    let canon = cleaned.canonicalize();
    let purged = canon.purge_dead(vars);
    assert(purged.inner.contains_key(k));
}

/// Where every stack slot that is live at an instruction or kept alive in
/// the state that reaches it belongs to a live frame, every stack slot
/// that is a base of the state that leaves the instruction belongs to a
/// live frame.
pub proof fn lemma_xfer_frames(
    pts: PointsToView,
    cs: Seq<ConstraintView>,
    vars: Seq<Var>,
    kill: spec_fn(Var) -> bool,
    k: Var,
)
    requires
        forall|v: Var|
            (vars.contains(v) || pts.super_live.contains(v)) && v is StackSlot
                ==> pts.frames.contains(v->func_addr),
        xfer_spec(pts, cs, vars, kill).inner.contains_key(k),
        k is StackSlot,
    ensures
        xfer_spec(pts, cs, vars, kill).frames.contains(k->func_addr),
{
    lemma_xfer_live(pts, cs, vars, kill, k);
    lemma_apply_seq_context(pts, cs);
}

} // verus!
