//! Constraints for the rule engine: those of an instruction's semantics,
//! of a call to an allocator, and of a call to a deallocator.

use vstd::prelude::*;
use crate::constraints::generation::{ExtractMove, extract_constraints, items_match, walk_list};
use crate::constraints::{Constraint, ConstraintView, VarPath, VarPathView};
use crate::datalog::{
    ConstraintsFreeConstraintIn,
    ConstraintsFreeConstraintOut,
    ConstraintsGenConstraintsIn,
    ConstraintsGenConstraintsOut,
    ConstraintsMallocConstraintIn,
    ConstraintsMallocConstraintOut,
};
use crate::flow::constraint_ok;
use crate::load::Loc;
use crate::regs::{RET_REG, spec_args};
use crate::var::Var;

verus! {

/// The constraints of the instruction: none for a call, else those of its
/// semantics.
pub fn gen_constraints(i: &ConstraintsGenConstraintsIn) -> (r: Vec<ConstraintsGenConstraintsOut>)
    ensures
        r@.len() == 1,
        items_match::<ExtractMove>(
            r@[0].c@,
            if i.is_call {
                Seq::empty()
            } else {
                walk_list(ExtractMove, i.bil@, *i.loc, *i.base, Map::empty()).0
            },
        ),
        forall|k: int| 0 <= k < r@[0].c@.len() ==> constraint_ok(#[trigger] r@[0].c@[k]@),
{
    let c = if i.is_call {
        Vec::new()
    } else {
        extract_constraints(i.bil, i.loc, i.base)
    };
    let mut out: Vec<ConstraintsGenConstraintsOut> = Vec::new();
    out.push(ConstraintsGenConstraintsOut { c });
    out
}

/// The constraint of an allocation at `loc`: the result register holds the
/// address of the fresh allocation of `loc`.
pub open spec fn malloc_spec(loc: Loc) -> ConstraintView {
    ConstraintView {
        lhs: VarPathView::var(Var::Register { register: RET_REG }),
        rhss: seq![VarPathView::addr(Var::Alloc { site: loc, stale: false })],
    }
}

/// The constraint of freeing through argument `n` at `loc`: what the
/// argument points to, at whatever offset, holds the address of the free
/// witness of `loc`.
pub open spec fn free_spec(loc: Loc, n: usize) -> ConstraintView {
    ConstraintView {
        lhs: VarPathView::var(Var::Register { register: spec_args()[n as int] }).unknown().deref(),
        rhss: seq![VarPathView::addr(Var::Freed { site: loc })],
    }
}

/// The constraint of a call to an allocator at the location.
pub fn malloc_constraint(i: &ConstraintsMallocConstraintIn) -> (r: Vec<
    ConstraintsMallocConstraintOut,
>)
    ensures
        r@.len() == 1,
        r@[0].c@.len() == 1,
        r@[0].c@[0]@ == malloc_spec(*i.loc),
        constraint_ok(r@[0].c@[0]@),
{
    let mut rhss: Vec<VarPath> = Vec::new();
    rhss.push(VarPath::addr(Var::Alloc { site: i.loc.copy(), stale: false }));
    let c = Constraint { lhs: VarPath::reg(&RET_REG), rhss };
    assert(c@.rhss =~= malloc_spec(*i.loc).rhss);
    let mut cs: Vec<Constraint> = Vec::new();
    cs.push(c);
    let mut out: Vec<ConstraintsMallocConstraintOut> = Vec::new();
    out.push(ConstraintsMallocConstraintOut { c: cs });
    out
}

/// The constraints of a call to a deallocator at the location that frees
/// the arguments listed.
pub fn free_constraint(i: &ConstraintsFreeConstraintIn) -> (r: Vec<ConstraintsFreeConstraintOut>)
    requires
        forall|k: int| 0 <= k < i.args@.len() ==> #[trigger] i.args@[k] < 6,
    ensures
        r@.len() == 1,
        r@[0].c@.len() == i.args@.len(),
        forall|k: int|
            0 <= k < i.args@.len() ==> (#[trigger] r@[0].c@[k])@ == free_spec(*i.loc, i.args@[k])
                && constraint_ok(r@[0].c@[k]@),
{
    let args = crate::regs::args();
    let mut cs: Vec<Constraint> = Vec::new();
    let mut k: usize = 0;
    while k < i.args.len()
        invariant
            k <= i.args@.len(),
            args@ == spec_args(),
            cs@.len() == k,
            forall|j: int| 0 <= j < i.args@.len() ==> #[trigger] i.args@[j] < 6,
            forall|j: int|
                0 <= j < k ==> (#[trigger] cs@[j])@ == free_spec(*i.loc, i.args@[j])
                    && constraint_ok(cs@[j]@),
        decreases i.args@.len() - k,
    {
        let n = i.args[k];
        assert(i.args@[k as int] < 6);
        let mut rhss: Vec<VarPath> = Vec::new();
        rhss.push(VarPath::addr(Var::Freed { site: i.loc.copy() }));
        let c = Constraint { lhs: VarPath::reg(&args[n]).unknown().deref(), rhss };
        assert(c@.rhss =~= free_spec(*i.loc, n).rhss);
        cs.push(c);
        k += 1;
    }
    let mut out: Vec<ConstraintsFreeConstraintOut> = Vec::new();
    out.push(ConstraintsFreeConstraintOut { c: cs });
    out
}

} // verus!
