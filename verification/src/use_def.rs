//! What an edge of the control flow invalidates, and which registers an
//! instruction defines.

use vstd::prelude::*;
use crate::bil::{Statement, Type, Variable};
use crate::datalog::{
    UseDefDefinesIn,
    UseDefDefinesOut,
    UseDefExcludeCallRegistersIn,
    UseDefExcludeCallRegistersOut,
    UseDefExcludeRegistersIn,
    UseDefExcludeRegistersOut,
    UseDefExpandRegistersIn,
    UseDefExpandRegistersOut,
    UseDefKillspecRegsIn,
    UseDefKillspecRegsOut,
    UseDefOnlyArgsIn,
    UseDefOnlyArgsOut,
    UseDefOnlyRetIn,
    UseDefOnlyRetOut,
    UseDefStackWipeIn,
    UseDefStackWipeOut,
};
use crate::load::Loc;
use crate::points_to::PointsToState;
use crate::regs::{Reg, RET_REG, is_arg, is_caller_saved, reg_of_name, spec_args, spec_caller_saved};
use crate::sorted_set::{SortedSet, elements};
use crate::var::{Var, VarPredicate, holds_of};

verus! {

/// What an edge of the control flow invalidates.
#[derive(Debug, PartialEq, Eq, PartialOrd, Ord, Hash)]
pub enum KillSpec {
    /// The registers listed.
    Registers(Vec<Reg>),
    /// The stack slots of the frame of the function entered at the
    /// location, and every register but the one that holds the result.
    StackFrame(Loc),
}

impl KillSpec {
    /// Whether the edge invalidates `v`.
    pub open spec fn spec_kill(&self, v: Var) -> bool {
        match (*self, v) {
            (KillSpec::Registers(rs), Var::Register { register }) => rs@.contains(register),
            (KillSpec::StackFrame(l), Var::StackSlot { func_addr, .. }) => func_addr == l,
            (KillSpec::StackFrame(_), Var::Register { register }) => register != RET_REG,
            _ => false,
        }
    }

    /// The specification that invalidates nothing.
    pub fn empty() -> (r: KillSpec)
        ensures
            r matches KillSpec::Registers(rs) && rs@.len() == 0,
            forall|v: Var| !r.spec_kill(v),
    {
        KillSpec::Registers(Vec::new())
    }

    /// Whether the edge invalidates `v`.
    pub fn kill(&self, v: &Var) -> (r: bool)
        ensures
            r == self.spec_kill(*v),
    {
        match self {
            KillSpec::Registers(rs) => match v {
                Var::Register { register } => {
                    let mut i: usize = 0;
                    while i < rs.len()
                        invariant
                            i <= rs@.len(),
                            *self == KillSpec::Registers(*rs),
                            *v == (Var::Register { register: *register }),
                            forall|j: int| 0 <= j < i ==> rs@[j] != *register,
                        decreases rs@.len() - i,
                    {
                        if rs[i] == *register {
                            assert(rs@[i as int] == *register);
                            return true;
                        }
                        i += 1;
                    }
                    false
                },
                _ => false,
            },
            KillSpec::StackFrame(l) => match v {
                Var::StackSlot { func_addr, .. } => func_addr.same(l),
                Var::Register { register } => *register != RET_REG,
                _ => false,
            },
        }
    }

    /// Removes from `pts` what the edge invalidates.
    pub fn purge_pts(&self, pts: &mut PointsToState)
        requires
            old(pts).wf(),
        ensures
            final(pts).wf(),
            final(pts)@ == old(pts)@.remove_predicate(holds_of(*self)),
    {
        pts.remove_predicate(self);
    }
}

impl KillSpec {
    /// An exact copy of the specification.
    pub fn dup(&self) -> (r: KillSpec)
        ensures
            forall|v: Var| r.spec_kill(v) == self.spec_kill(v),
            r is StackFrame == *self is StackFrame,
    {
        match self {
            KillSpec::Registers(rs) => {
                let mut out: Vec<Reg> = Vec::new();
                let mut i: usize = 0;
                while i < rs.len()
                    invariant
                        i <= rs@.len(),
                        out@ == rs@.subrange(0, i as int),
                    decreases rs@.len() - i,
                {
                    out.push(rs[i]);
                    assert(out@ =~= rs@.subrange(0, i + 1));
                    i += 1;
                }
                assert(rs@.subrange(0, i as int) =~= rs@);
                KillSpec::Registers(out)
            },
            KillSpec::StackFrame(l) => KillSpec::StackFrame(l.copy()),
        }
    }
}

impl Clone for KillSpec {
    fn clone(&self) -> (r: KillSpec)
        ensures
            forall|v: Var| r.spec_kill(v) == self.spec_kill(v),
    {
        self.dup()
    }
}

impl VarPredicate for KillSpec {
    open spec fn valid(&self) -> bool {
        true
    }

    open spec fn holds(&self, v: Var) -> bool {
        self.spec_kill(v)
    }

    fn test(&self, v: &Var) -> (r: bool) {
        self.kill(v)
    }
}

/// The specification of an edge that invalidates nothing.
pub fn killspec_regs(_i: &UseDefKillspecRegsIn) -> (r: Vec<UseDefKillspecRegsOut>)
    ensures
        r@.len() == 1,
        r@[0].ks matches KillSpec::Registers(rs) && rs@.len() == 0,
{
    let mut out: Vec<UseDefKillspecRegsOut> = Vec::new();
    out.push(UseDefKillspecRegsOut { ks: KillSpec::empty() });
    out
}

/// The specification of an edge that returns from the function entered at `base`.
pub fn stack_wipe(i: &UseDefStackWipeIn) -> (r: Vec<UseDefStackWipeOut>)
    ensures
        r@.len() == 1,
        r@[0].ks == KillSpec::StackFrame(*i.base),
{
    let mut out: Vec<UseDefStackWipeOut> = Vec::new();
    out.push(UseDefStackWipeOut { ks: KillSpec::StackFrame(i.base.copy()) });
    out
}

/// Whether `r` is a variable wider than a flag.
pub fn is_normal_reg(r: &Variable) -> (b: bool)
    ensures
        b == (r.type_ matches Type::Immediate(x) && x > 1),
{
    match r.type_ {
        Type::Immediate(x) => x > 1,
        _ => false,
    }
}

/// The register that an assignment to `lhs` defines, if any: that of its
/// name, where `lhs` is no temporary and wider than a flag.
pub open spec fn reg_defined(lhs: Variable) -> Option<Reg> {
    if !lhs.tmp && (lhs.type_ matches Type::Immediate(x) && x > 1) {
        reg_of_name(lhs.name@)
    } else {
        None
    }
}

/// The registers that `stmt` defines.
pub open spec fn stmt_defs(stmt: Statement) -> Set<Reg>
    decreases stmt,
{
    match stmt {
        Statement::Move { lhs, .. } => match reg_defined(lhs) {
            Some(r) => Set::empty().insert(r),
            None => Set::empty(),
        },
        Statement::While { body, .. } => list_defs(body@),
        Statement::IfThenElse { then_clause, else_clause, .. } => list_defs(then_clause@).union(
            list_defs(else_clause@),
        ),
        _ => Set::empty(),
    }
}

/// The registers that the statements `stmts` define.
pub open spec fn list_defs(stmts: Seq<Statement>) -> Set<Reg>
    decreases stmts,
{
    if stmts.len() == 0 {
        Set::empty()
    } else {
        stmt_defs(stmts[0]).union(list_defs(stmts.drop_first()))
    }
}

/// Adds to `defs` the registers that `stmts` define from position `start` on.
pub fn defines_from(stmts: &Vec<Statement>, start: usize, defs: &mut SortedSet<Reg>)
    requires
        start <= stmts@.len(),
        old(defs).wf(),
    ensures
        final(defs).wf(),
        final(defs)@ == old(defs)@.union(
            list_defs(stmts@.subrange(start as int, stmts@.len() as int)),
        ),
    decreases stmts@, stmts@.len() - start,
{
    let ghost here = stmts@.subrange(start as int, stmts@.len() as int);
    if start == stmts.len() {
        assert(defs@ =~= defs@.union(list_defs(here)));
        return;
    }
    proof {
        assert(here[0] == stmts@[start as int]);
        assert(here.drop_first() =~= stmts@.subrange(start + 1, stmts@.len() as int));
    }
    defines_stmt(&stmts[start], defs);
    defines_from(stmts, start + 1, defs);
    assert(defs@ =~= old(defs)@.union(list_defs(here)));
}

/// Adds to `defs` the registers that `stmt` defines.
pub fn defines_stmt(stmt: &Statement, defs: &mut SortedSet<Reg>)
    requires
        old(defs).wf(),
    ensures
        final(defs).wf(),
        final(defs)@ == old(defs)@.union(stmt_defs(*stmt)),
    decreases *stmt,
{
    match stmt {
        Statement::Move { lhs, .. } => {
            if !lhs.tmp && is_normal_reg(lhs) {
                match Reg::from_name(lhs.name.as_str()) {
                    Some(reg) => {
                        defs.insert(reg);
                    },
                    None => {},
                }
            }
            assert(defs@ =~= old(defs)@.union(stmt_defs(*stmt)));
        },
        Statement::While { body, .. } => {
            assert(body@.subrange(0, body@.len() as int) =~= body@);
            defines_from(body, 0, defs);
        },
        Statement::IfThenElse { then_clause, else_clause, .. } => {
            assert(then_clause@.subrange(0, then_clause@.len() as int) =~= then_clause@);
            assert(else_clause@.subrange(0, else_clause@.len() as int) =~= else_clause@);
            defines_from(then_clause, 0, defs);
            defines_from(else_clause, 0, defs);
            assert(defs@ =~= old(defs)@.union(stmt_defs(*stmt)));
        },
        _ => {
            assert(defs@ =~= old(defs)@.union(stmt_defs(*stmt)));
        },
    }
}

/// The registers that the instruction defines, in ascending order.
pub fn defines(i: &UseDefDefinesIn) -> (r: Vec<UseDefDefinesOut>)
    ensures
        r@.len() == 1,
        r@[0].registers@ == elements(list_defs(i.bil@)),
{
    let mut defs: SortedSet<Reg> = SortedSet::new();
    assert(i.bil@.subrange(0, i.bil@.len() as int) =~= i.bil@);
    defines_from(i.bil, 0, &mut defs);
    proof {
        assert(defs@ =~= list_defs(i.bil@));
        defs.lemma_seq();
    }
    let mut out: Vec<UseDefDefinesOut> = Vec::new();
    out.push(UseDefDefinesOut { registers: defs.to_vec() });
    out
}

/// The registers, one tuple each.
pub fn expand_registers(i: &UseDefExpandRegistersIn) -> (r: Vec<UseDefExpandRegistersOut>)
    ensures
        r@.len() == i.registers@.len(),
        forall|k: int| 0 <= k < r@.len() ==> (#[trigger] r@[k]).register == i.registers@[k],
{
    let mut out: Vec<UseDefExpandRegistersOut> = Vec::new();
    let mut k: usize = 0;
    while k < i.registers.len()
        invariant
            k <= i.registers@.len(),
            out@.len() == k,
            forall|j: int| 0 <= j < k ==> (#[trigger] out@[j]).register == i.registers@[j],
        decreases i.registers@.len() - k,
    {
        out.push(UseDefExpandRegistersOut { register: i.registers[k] });
        k += 1;
    }
    out
}

/// Whether `regs` holds `reg`.
pub fn regs_contain(regs: &Vec<Reg>, reg: Reg) -> (r: bool)
    ensures
        r == regs@.contains(reg),
{
    let mut k: usize = 0;
    while k < regs.len()
        invariant
            k <= regs@.len(),
            forall|j: int| 0 <= j < k ==> regs@[j] != reg,
        decreases regs@.len() - k,
    {
        if regs[k] == reg {
            assert(regs@[k as int] == reg);
            return true;
        }
        k += 1;
    }
    false
}

/// One tuple where the register was not defined before, none otherwise.
pub fn exclude_registers(i: &UseDefExcludeRegistersIn) -> (r: Vec<UseDefExcludeRegistersOut>)
    ensures
        r@.len() == if i.prev_defines@.contains(*i.register) { 0nat } else { 1nat },
{
    let mut out: Vec<UseDefExcludeRegistersOut> = Vec::new();
    if !regs_contain(i.prev_defines, *i.register) {
        out.push(UseDefExcludeRegistersOut {  });
    }
    out
}

/// One tuple where a call leaves the register alone, none otherwise.
pub fn exclude_call_registers(i: &UseDefExcludeCallRegistersIn) -> (r: Vec<
    UseDefExcludeCallRegistersOut,
>)
    ensures
        r@.len() == if spec_caller_saved().contains(*i.register) { 0nat } else { 1nat },
{
    let mut out: Vec<UseDefExcludeCallRegistersOut> = Vec::new();
    if !is_caller_saved(*i.register) {
        out.push(UseDefExcludeCallRegistersOut {  });
    }
    out
}

/// One tuple where the register carries an argument, none otherwise.
pub fn only_args(i: &UseDefOnlyArgsIn) -> (r: Vec<UseDefOnlyArgsOut>)
    ensures
        r@.len() == if spec_args().contains(*i.register) { 1nat } else { 0nat },
{
    let mut out: Vec<UseDefOnlyArgsOut> = Vec::new();
    if is_arg(*i.register) {
        out.push(UseDefOnlyArgsOut {  });
    }
    out
}

/// One tuple where the register holds the result, none otherwise.
pub fn only_ret(i: &UseDefOnlyRetIn) -> (r: Vec<UseDefOnlyRetOut>)
    ensures
        r@.len() == if *i.register == RET_REG { 1nat } else { 0nat },
{
    let mut out: Vec<UseDefOnlyRetOut> = Vec::new();
    if *i.register == RET_REG {
        out.push(UseDefOnlyRetOut {  });
    }
    out
}

} // verus!
