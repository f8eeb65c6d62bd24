//! The tuples that the rule engine hands to the functions of this library
//! and takes back from them, and the functions that merge tuples.

use vstd::prelude::*;
use crate::bil::Statement;
use crate::constraints::Constraint;
use crate::effect::Effect;
use crate::load::Loc;
use crate::points_to::PointsToState;
use crate::regs::Reg;
use crate::use_def::KillSpec;
use crate::var::Var;

verus! {

/// The semantics of one instruction.
pub type Sema = Vec<Statement>;

/// A set of locations, held as a list without repetition.
pub type LocSet = Vec<Loc>;

/// What `load::singleton_string` takes.
pub struct LoadSingletonStringIn<'a> {
    pub name: &'a String,
}

/// What `load::singleton_string` yields.
pub struct LoadSingletonStringOut {
    pub names: Vec<String>,
}

/// What `load::sema_succ` takes.
pub struct LoadSemaSuccIn<'a> {
    pub bil: &'a Sema,
    pub fall: &'a Loc,
    pub src: &'a Loc,
    pub is_call: bool,
}

/// What `load::sema_succ` yields.
pub struct LoadSemaSuccOut {
    pub dst: Loc,
}

/// What `load::is_computed_jump` takes.
pub struct LoadIsComputedJumpIn<'a> {
    pub bil: &'a Sema,
}

/// What `load::is_computed_jump` yields.
pub struct LoadIsComputedJumpOut {}

/// What `load::is_malloc_name` takes.
pub struct LoadIsMallocNameIn<'a> {
    pub func_name: &'a str,
}

/// What `load::is_malloc_name` yields.
pub struct LoadIsMallocNameOut {}

/// What `load::is_free_name` takes.
pub struct LoadIsFreeNameIn<'a> {
    pub func_name: &'a str,
}

/// What `load::is_free_name` yields.
pub struct LoadIsFreeNameOut {
    pub args: Vec<usize>,
}

/// What `load::is_returning_name` takes.
pub struct LoadIsReturningNameIn<'a> {
    pub func_name: &'a str,
}

/// What `load::is_returning_name` yields.
pub struct LoadIsReturningNameOut {}

/// What `load::call_site_stack` takes.
pub struct LoadCallSiteStackIn<'a> {
    pub call_loc: &'a Loc,
    pub pad_loc: &'a Loc,
    pub target_loc: &'a Loc,
}

/// What `load::call_site_stack` yields.
pub struct LoadCallSiteStackOut {
    pub target_loc_adjusted: Loc,
}

/// What `load::called_unstacked` takes.
pub struct LoadCalledUnstackedIn<'a> {
    pub loc: &'a Loc,
}

/// What `load::called_unstacked` yields.
pub struct LoadCalledUnstackedOut {
    pub locs: LocSet,
}

/// What `load::called_filter` takes.
pub struct LoadCalledFilterIn<'a> {
    pub locs: &'a LocSet,
    pub loc: &'a Loc,
}

/// What `load::called_filter` yields.
pub struct LoadCalledFilterOut {}

/// What `context::strip_stack` takes.
pub struct ContextStripStackIn<'a> {
    pub stacked: &'a Loc,
}

/// What `context::strip_stack` yields.
pub struct ContextStripStackOut {
    pub free: Loc,
}

/// What `context::add_stack` takes.
pub struct ContextAddStackIn<'a> {
    pub free: &'a Loc,
}

/// What `context::add_stack` yields.
pub struct ContextAddStackOut {
    pub stacked: Loc,
}

/// What `context::flow_only_context` takes.
pub struct ContextFlowOnlyContextIn<'a> {
    pub free: &'a Loc,
    pub use_: &'a Loc,
}

/// What `context::flow_only_context` yields.
pub struct ContextFlowOnlyContextOut {}

/// What `context::stack_fallthrough` takes.
pub struct ContextStackFallthroughIn<'a> {
    pub fallthrough: &'a Loc,
    pub stacked: &'a Loc,
}

/// What `context::stack_fallthrough` yields.
pub struct ContextStackFallthroughOut {
    pub fallthrough_stacked: Loc,
}

/// What `flow::xfer` takes.
pub struct FlowXferIn<'a> {
    pub loc: &'a Loc,
    pub pts: &'a PointsToState,
    pub cs: &'a Vec<Constraint>,
    pub vars: &'a Vec<Var>,
    pub ks: &'a KillSpec,
}

/// What `flow::xfer` yields.
pub struct FlowXferOut {
    pub pts2: PointsToState,
}

/// What `flow::is_freed` takes.
pub struct FlowIsFreedIn<'a> {
    pub pts: &'a PointsToState,
    pub v: &'a Var,
}

/// What `flow::is_freed` yields.
pub struct FlowIsFreedOut {
    pub loc: Loc,
}

/// What `flow::stack_purge` takes.
pub struct FlowStackPurgeIn<'a> {
    pub pts: &'a PointsToState,
    pub src: &'a Loc,
    pub dst: &'a Loc,
}

/// What `flow::stack_purge` yields.
pub struct FlowStackPurgeOut {
    pub pts2: PointsToState,
}

/// What `flow::dyn_clear` takes.
pub struct FlowDynClearIn<'a> {
    pub pts: &'a PointsToState,
    pub base: &'a Loc,
}

/// What `flow::dyn_clear` yields.
pub struct FlowDynClearOut {
    pub pts2: PointsToState,
}

/// What `flow::base_pts` takes.
pub struct FlowBasePtsIn<'a> {
    pub loc: &'a Loc,
}

/// What `flow::base_pts` yields.
pub struct FlowBasePtsOut {
    pub pts: PointsToState,
}

/// What `flow::promote_loc` takes.
pub struct FlowPromoteLocIn<'a> {
    pub src: &'a Loc,
}

/// What `flow::promote_loc` yields.
pub struct FlowPromoteLocOut {
    pub src_promoted: LocSet,
}

/// What `flow::count` takes.
pub struct FlowCountIn<'a> {
    pub preds: &'a LocSet,
}

/// What `flow::count` yields.
pub struct FlowCountOut {
    pub count: usize,
}

/// What `flow::empty_pts` takes.
pub struct FlowEmptyPtsIn<'a> {
    pub loc: &'a Loc,
}

/// What `flow::empty_pts` yields.
pub struct FlowEmptyPtsOut {
    pub pts: PointsToState,
}

/// What `constraints::datalog::gen_constraints` takes.
pub struct ConstraintsGenConstraintsIn<'a> {
    pub bil: &'a Sema,
    pub loc: &'a Loc,
    pub base: &'a Loc,
    pub is_call: bool,
}

/// What `constraints::datalog::gen_constraints` yields.
pub struct ConstraintsGenConstraintsOut {
    pub c: Vec<Constraint>,
}

/// What `constraints::datalog::malloc_constraint` takes.
pub struct ConstraintsMallocConstraintIn<'a> {
    pub loc: &'a Loc,
}

/// What `constraints::datalog::malloc_constraint` yields.
pub struct ConstraintsMallocConstraintOut {
    pub c: Vec<Constraint>,
}

/// What `constraints::datalog::free_constraint` takes.
pub struct ConstraintsFreeConstraintIn<'a> {
    pub args: &'a Vec<usize>,
    pub loc: &'a Loc,
}

/// What `constraints::datalog::free_constraint` yields.
pub struct ConstraintsFreeConstraintOut {
    pub c: Vec<Constraint>,
}

/// What `uaf::reads_vars` takes.
pub struct UafReadsVarsIn<'a> {
    pub bil: &'a Sema,
    pub loc: &'a Loc,
    pub base: &'a Loc,
}

/// What `uaf::reads_vars` yields.
pub struct UafReadsVarsOut {
    pub v: Var,
}

/// What `uaf::use_vars` takes.
pub struct UafUseVarsIn<'a> {
    pub r: &'a Reg,
}

/// What `uaf::use_vars` yields.
pub struct UafUseVarsOut {
    pub v: Var,
}

/// What `use_def::killspec_regs` takes.
pub struct UseDefKillspecRegsIn {}

/// What `use_def::killspec_regs` yields.
pub struct UseDefKillspecRegsOut {
    pub ks: KillSpec,
}

/// What `use_def::stack_wipe` takes.
pub struct UseDefStackWipeIn<'a> {
    pub base: &'a Loc,
}

/// What `use_def::stack_wipe` yields.
pub struct UseDefStackWipeOut {
    pub ks: KillSpec,
}

/// What `use_def::defines` takes.
pub struct UseDefDefinesIn<'a> {
    pub bil: &'a Sema,
}

/// What `use_def::defines` yields.
pub struct UseDefDefinesOut {
    pub registers: Vec<Reg>,
}

/// What `use_def::expand_registers` takes.
pub struct UseDefExpandRegistersIn<'a> {
    pub registers: &'a Vec<Reg>,
}

/// What `use_def::expand_registers` yields.
pub struct UseDefExpandRegistersOut {
    pub register: Reg,
}

/// What `use_def::exclude_registers` takes.
pub struct UseDefExcludeRegistersIn<'a> {
    pub prev_defines: &'a Vec<Reg>,
    pub register: &'a Reg,
}

/// What `use_def::exclude_registers` yields.
pub struct UseDefExcludeRegistersOut {}

/// What `use_def::exclude_call_registers` takes.
pub struct UseDefExcludeCallRegistersIn<'a> {
    pub register: &'a Reg,
}

/// What `use_def::exclude_call_registers` yields.
pub struct UseDefExcludeCallRegistersOut {}

/// What `use_def::only_args` takes.
pub struct UseDefOnlyArgsIn<'a> {
    pub register: &'a Reg,
}

/// What `use_def::only_args` yields.
pub struct UseDefOnlyArgsOut {}

/// What `use_def::only_ret` takes.
pub struct UseDefOnlyRetIn<'a> {
    pub register: &'a Reg,
}

/// What `use_def::only_ret` yields.
pub struct UseDefOnlyRetOut {}

/// What `live::not_defined` takes.
pub struct LiveNotDefinedIn<'a> {
    pub vars: &'a Vec<Var>,
    pub var: &'a Var,
}

/// What `live::not_defined` yields.
pub struct LiveNotDefinedOut {}

/// What `live::defined` takes.
pub struct LiveDefinedIn<'a> {
    pub bil: &'a Sema,
    pub loc: &'a Loc,
    pub base: &'a Loc,
}

/// What `live::defined` yields.
pub struct LiveDefinedOut {
    pub vars: Vec<Var>,
}

/// What `live::used` takes.
pub struct LiveUsedIn<'a> {
    pub bil: &'a Sema,
    pub loc: &'a Loc,
    pub base: &'a Loc,
}

/// What `live::used` yields.
pub struct LiveUsedOut {
    pub var: Var,
}

/// What `live::promote_var` takes.
pub struct LivePromoteVarIn<'a> {
    pub var: &'a Var,
}

/// What `live::promote_var` yields.
pub struct LivePromoteVarOut {
    pub vars: Vec<Var>,
}

/// What `live::call_defs` takes.
pub struct LiveCallDefsIn {}

/// What `live::call_defs` yields.
pub struct LiveCallDefsOut {
    pub vars: Vec<Var>,
}

/// What `live::drop_stack` takes.
pub struct LiveDropStackIn<'a> {
    pub var: &'a Var,
}

/// What `live::drop_stack` yields.
pub struct LiveDropStackOut {}

/// What `live::drop_frame` takes.
pub struct LiveDropFrameIn<'a> {
    pub var: &'a Var,
    pub func: &'a Loc,
}

/// What `live::drop_frame` yields.
pub struct LiveDropFrameOut {}

/// What `live::promote_reg` takes.
pub struct LivePromoteRegIn<'a> {
    pub reg: &'a Reg,
}

/// What `live::promote_reg` yields.
pub struct LivePromoteRegOut {
    pub var: Var,
}

/// What `live::entry_defined_promote` takes.
pub struct LiveEntryDefinedPromoteIn<'a> {
    pub register: &'a Reg,
}

/// What `live::entry_defined_promote` yields.
pub struct LiveEntryDefinedPromoteOut {
    pub vars: Vec<Var>,
}

/// What `live::undef_live` takes.
pub struct LiveUndefLiveIn<'a> {
    pub loc: &'a Loc,
    pub live: &'a Vec<Var>,
    pub defined: &'a Vec<Var>,
}

/// What `live::undef_live` yields.
pub struct LiveUndefLiveOut {
    pub pts: PointsToState,
}

/// What `effect::apply_effect` takes.
pub struct EffectApplyEffectIn<'a> {
    pub effect: &'a Effect,
    pub effect_call: &'a Effect,
}

/// What `effect::apply_effect` yields.
pub struct EffectApplyEffectOut {
    pub effect2: Effect,
}

/// What `effect::remote_apply_effect` takes.
pub struct EffectRemoteApplyEffectIn<'a> {
    pub name: &'a str,
    pub effect: &'a Effect,
    pub effect_call: &'a Effect,
}

/// What `effect::remote_apply_effect` yields.
pub struct EffectRemoteApplyEffectOut {
    pub effect2: Effect,
}

/// What `effect::malloc` takes.
pub struct EffectMallocIn<'a> {
    pub effect: &'a Effect,
    pub local: &'a Loc,
}

/// What `effect::malloc` yields.
pub struct EffectMallocOut {
    pub effect2: Effect,
}

/// What `effect::update_pts` takes.
pub struct EffectUpdatePtsIn<'a> {
    pub effect: &'a Effect,
    pub pts: &'a PointsToState,
}

/// What `effect::update_pts` yields.
pub struct EffectUpdatePtsOut {
    pub pts2: PointsToState,
}

/// What `fmt_str::parse_str` takes.
pub struct FmtStrParseStrIn<'a> {
    pub str: &'a String,
}

/// What `fmt_str::parse_str` yields.
pub struct FmtStrParseStrOut {
    pub arg: Reg,
}

/// What `fmt_str::ascii_nullterm` takes.
pub struct FmtStrAsciiNulltermIn<'a> {
    pub start: u64,
    pub addr: u64,
    pub end: u64,
    pub contents: &'a Vec<u8>,
}

/// What `fmt_str::ascii_nullterm` yields.
pub struct FmtStrAsciiNulltermOut {
    pub str: String,
}

/// The effects `efs` merged, first to last.
pub open spec fn effects_merged(efs: Seq<&Effect>) -> crate::effect::EffectView
    decreases efs.len(),
{
    if efs.len() <= 1 {
        efs[0]@
    } else {
        effects_merged(efs.drop_last()).merge(efs.last()@)
    }
}

/// The effect of taking one of the paths with the effects `efs`.
pub fn effect_merge(efs: &[&Effect]) -> (r: Effect)
    requires
        efs@.len() > 0,
        forall|k: int| 0 <= k < efs@.len() ==> (#[trigger] efs@[k]).wf(),
    ensures
        r.wf(),
        r@ == effects_merged(efs@),
{
    let mut out = efs[0].dup();
    let mut k: usize = 1;
    assert(efs@.subrange(0, 1)[0] == efs@[0]);
    while k < efs.len()
        invariant
            1 <= k <= efs@.len(),
            forall|j: int| 0 <= j < efs@.len() ==> (#[trigger] efs@[j]).wf(),
            out.wf(),
            out@ == effects_merged(efs@.subrange(0, k as int)),
        decreases efs@.len() - k,
    {
        proof {
            assert(efs@.subrange(0, k + 1).drop_last() =~= efs@.subrange(0, k as int));
            assert(efs@.subrange(0, k + 1).last() == efs@[k as int]);
        }
        out = out.merge(efs[k]);
        k += 1;
    }
    assert(efs@.subrange(0, k as int) =~= efs@);
    out
}

/// The states `ptss` merged, first to last.
pub open spec fn states_merged(ptss: Seq<&PointsToState>) -> crate::points_to::PointsToView
    decreases ptss.len(),
{
    if ptss.len() <= 1 {
        ptss[0]@
    } else {
        states_merged(ptss.drop_last()).merge(ptss.last()@)
    }
}

/// The state that joins the states `ptss`.
pub fn pts_merge(ptss: &[&PointsToState]) -> (r: PointsToState)
    requires
        ptss@.len() > 0,
        forall|k: int| 0 <= k < ptss@.len() ==> (#[trigger] ptss@[k]).wf(),
    ensures
        r.wf(),
        r@ == states_merged(ptss@),
{
    let mut out = ptss[0].dup();
    let mut k: usize = 1;
    assert(ptss@.subrange(0, 1)[0] == ptss@[0]);
    while k < ptss.len()
        invariant
            1 <= k <= ptss@.len(),
            forall|j: int| 0 <= j < ptss@.len() ==> (#[trigger] ptss@[j]).wf(),
            out.wf(),
            out@ == states_merged(ptss@.subrange(0, k as int)),
        decreases ptss@.len() - k,
    {
        proof {
            assert(ptss@.subrange(0, k + 1).drop_last() =~= ptss@.subrange(0, k as int));
            assert(ptss@.subrange(0, k + 1).last() == ptss@[k as int]);
        }
        out.merge(ptss[k]);
        k += 1;
    }
    assert(ptss@.subrange(0, k as int) =~= ptss@);
    out
}

/// `acc` followed by the locations of `ls` that are not yet in it, in order.
pub open spec fn locs_added(acc: Seq<Loc>, ls: Seq<Loc>) -> Seq<Loc>
    decreases ls.len(),
{
    if ls.len() == 0 {
        acc
    } else {
        let before = locs_added(acc, ls.drop_last());
        if before.contains(ls.last()) {
            before
        } else {
            before.push(ls.last())
        }
    }
}

/// The locations of the lists `lss`, each once, in the order of their
/// first occurrence.
pub open spec fn locs_merged(lss: Seq<&LocSet>) -> Seq<Loc>
    decreases lss.len(),
{
    if lss.len() == 0 {
        Seq::empty()
    } else {
        locs_added(locs_merged(lss.drop_last()), lss.last()@)
    }
}

/// The union of the location sets `lss`.
pub fn loc_merge(lss: &[&LocSet]) -> (r: LocSet)
    ensures
        r@ == locs_merged(lss@),
{
    let mut out: Vec<Loc> = Vec::new();
    let mut k: usize = 0;
    while k < lss.len()
        invariant
            k <= lss@.len(),
            out@ == locs_merged(lss@.subrange(0, k as int)),
        decreases lss@.len() - k,
    {
        let ls = lss[k];
        let ghost base = out@;
        proof {
            assert(lss@.subrange(0, k + 1).drop_last() =~= lss@.subrange(0, k as int));
            assert(lss@.subrange(0, k + 1).last() == ls);
        }
        let mut j: usize = 0;
        while j < ls.len()
            invariant
                j <= ls@.len(),
                out@ == locs_added(base, ls@.subrange(0, j as int)),
            decreases ls@.len() - j,
        {
            proof {
                assert(ls@.subrange(0, j + 1).drop_last() =~= ls@.subrange(0, j as int));
                assert(ls@.subrange(0, j + 1).last() == ls@[j as int]);
            }
            if !crate::load::locs_contain(&out, &ls[j]) {
                out.push(ls[j].copy());
            }
            j += 1;
        }
        assert(ls@.subrange(0, j as int) =~= ls@);
        k += 1;
    }
    assert(lss@.subrange(0, k as int) =~= lss@);
    out
}

} // verus!
