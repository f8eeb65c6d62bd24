use marduk::bil::{BinOp, Cast, Endian, Expression, Statement, Type, Variable};
use marduk::constraints::datalog::{free_constraint, gen_constraints, malloc_constraint};
use marduk::constraints::generation::{
    extract_constraints, extract_expr, extract_var_use, TmpDb, E,
};
use marduk::constraints::{off_plus, Constraint, VarPath};
use marduk::datalog::{
    ConstraintsFreeConstraintIn, ConstraintsGenConstraintsIn, ConstraintsMallocConstraintIn,
    FlowBasePtsIn, FlowCountIn, FlowDynClearIn, FlowEmptyPtsIn, FlowIsFreedIn, FlowPromoteLocIn,
    FlowStackPurgeIn, FlowXferIn, UafReadsVarsIn, UafUseVarsIn,
};
use marduk::flow::{
    apply, base_pts, count, dyn_clear, empty_pts, is_freed, lhs_resolve, promote_loc,
    rhs_resolve, stack_purge, xfer,
};
use marduk::interned_string::{InternedString, Interner};
use marduk::load::{Loc, Stack};
use marduk::points_to::PointsToState;
use marduk::regs::Reg;
use marduk::sorted_map::SortedMap;
use marduk::uaf::{reads_vars, use_vars};
use marduk::use_def::KillSpec;
use marduk::var::Var;
use marduk::var_ref::{VarRef, VarSet};

fn site(addr: u64) -> Loc {
    let mut interner = Interner::new();
    let f = InternedString::from_string("a.elf", &mut interner);
    Loc { file_name: f, addr, stack: Stack::NoStack }
}

fn reg(r: Reg) -> Var {
    Var::Register { register: r }
}

fn at(var: Var, offset: u64) -> VarRef {
    VarRef { var, offset: Some(offset) }
}

fn set(items: Vec<VarRef>) -> VarSet {
    let mut s = VarSet::new();
    s.extend(&items);
    s
}

fn fresh(addr: u64) -> Var {
    Var::Alloc { site: site(addr), stale: false }
}

fn stale(addr: u64) -> Var {
    Var::Alloc { site: site(addr), stale: true }
}

fn path(base: Var, offsets: Vec<Option<u64>>) -> VarPath {
    VarPath { base, offsets }
}

fn reg64(name: &str) -> Variable {
    Variable { name: name.to_string(), type_: Type::Immediate(64), tmp: false, index: 0 }
}

fn tmp64(name: &str) -> Variable {
    Variable { name: name.to_string(), type_: Type::Immediate(64), tmp: true, index: 0 }
}

fn mem() -> Variable {
    Variable {
        name: "mem".to_string(),
        type_: Type::Memory { addr_size: 64, cell_size: 8 },
        tmp: false,
        index: 0,
    }
}

fn var(v: Variable) -> Expression {
    Expression::Var(v)
}

fn konst(k: u64) -> Expression {
    Expression::Const(Some(k))
}

fn add(l: Expression, r: Expression) -> Expression {
    Expression::BinOp { op: BinOp::Add, lhs: Box::new(l), rhs: Box::new(r) }
}

fn load(index: Expression) -> Expression {
    Expression::Load {
        memory: Box::new(var(mem())),
        index: Box::new(index),
        endian: Endian::Little,
        size: 64,
    }
}

fn store(index: Expression, value: Expression) -> Expression {
    Expression::Store {
        memory: Box::new(var(mem())),
        index: Box::new(index),
        value: Box::new(value),
        endian: Endian::Little,
        size: 64,
    }
}

fn mov(lhs: Variable, rhs: Expression) -> Statement {
    Statement::Move { lhs, rhs }
}

fn extract(e: &Expression, db: &TmpDb) -> Vec<E> {
    extract_expr(e, &site(0x10), &site(0x1), db)
}

fn reg_path(r: Reg) -> VarPath {
    path(reg(r), vec![Some(0), Some(0)])
}

#[test]
fn var_path_builders() {
    assert_eq!(VarPath::var(reg(Reg::RAX)), reg_path(Reg::RAX));
    assert_eq!(VarPath::reg(&Reg::RDI), reg_path(Reg::RDI));
    assert_eq!(VarPath::temp("v12"), path(Var::Temp { serial: 12 }, vec![Some(0), Some(0)]));
    assert_eq!(VarPath::addr(fresh(1)), path(fresh(1), vec![Some(0)]));
    assert_eq!(
        VarPath::stack_addr(&site(1), 24),
        path(Var::StackSlot { func_addr: site(1), offset: 24 }, vec![Some(0)])
    );
    let p = reg_path(Reg::RAX);
    assert_eq!(p.plus(8), path(reg(Reg::RAX), vec![Some(0), Some(8)]));
    assert_eq!(p.plus(8).plus(u64::MAX), path(reg(Reg::RAX), vec![Some(0), Some(7)]));
    assert_eq!(p.unknown(), path(reg(Reg::RAX), vec![Some(0), None]));
    assert_eq!(p.unknown().plus(8), path(reg(Reg::RAX), vec![Some(0), None]));
    assert_eq!(p.deref(), path(reg(Reg::RAX), vec![Some(0), Some(0), Some(0)]));
    assert_eq!(p.derefs(), 2);
    assert_eq!(VarPath::addr(fresh(1)).derefs(), 1);
    let mut o = Some(5);
    off_plus(&mut o, 3);
    assert_eq!(o, Some(8));
    let mut n = None;
    off_plus(&mut n, 3);
    assert_eq!(n, None);
}

#[test]
fn constraint_has_stacked() {
    let plain = Constraint { lhs: reg_path(Reg::RAX), rhss: vec![VarPath::addr(fresh(1))] };
    assert!(!plain.has_stacked());
    let mut l = site(2);
    l.stack = Stack::EmptyStack;
    let stacked = Constraint {
        lhs: reg_path(Reg::RAX),
        rhss: vec![VarPath::addr(fresh(1)), VarPath::addr(Var::Freed { site: l.clone() })],
    };
    assert!(stacked.has_stacked());
    let left = Constraint {
        lhs: path(Var::StackSlot { func_addr: l, offset: 0 }, vec![Some(0), Some(0)]),
        rhss: vec![],
    };
    assert!(left.has_stacked());
}

#[test]
fn extract_expr_registers_and_constants() {
    let db: TmpDb = SortedMap::new();
    assert_eq!(extract(&var(reg64("RAX")), &db), vec![E::VP(reg_path(Reg::RAX))]);
    assert_eq!(
        extract(&var(reg64("RSP")), &db),
        vec![E::VP(VarPath::stack_addr(&site(1), 0))]
    );
    assert_eq!(
        extract(&var(tmp64("#17")), &db),
        vec![E::VP(VarPath::var(Var::Temp { serial: 17 }))]
    );
    assert_eq!(extract(&var(reg64("YMM0")), &db), vec![]);
    assert_eq!(extract(&var(tmp64("nodigits")), &db), vec![]);
    let flag = Variable { name: "ZF".to_string(), type_: Type::Immediate(1), tmp: false, index: 0 };
    assert_eq!(extract(&var(flag), &db), vec![]);
    assert_eq!(extract(&konst(42), &db), vec![E::Const(42)]);
    assert_eq!(extract(&Expression::Const(None), &db), vec![]);
    let mut known: TmpDb = SortedMap::new();
    known.insert(reg(Reg::RAX), 7);
    assert_eq!(extract(&var(reg64("RAX")), &known), vec![E::Const(7)]);
    assert_eq!(extract(&var(reg64("RBX")), &known), vec![E::VP(reg_path(Reg::RBX))]);
}

#[test]
fn extract_expr_stack_relative_addresses() {
    let db: TmpDb = SortedMap::new();
    assert_eq!(
        extract(&add(var(reg64("RSP")), konst(0x18)), &db),
        vec![E::VP(VarPath::stack_addr(&site(1), 0x18))]
    );
    assert_eq!(
        extract(&add(konst(0x20), var(reg64("RSP"))), &db),
        vec![E::VP(VarPath::stack_addr(&site(1), 0x20))]
    );
    // the stack pointer plus a register is no stack slot
    assert_eq!(
        extract(&add(var(reg64("RSP")), var(reg64("RAX"))), &db),
        vec![
            E::VP(path(Var::StackSlot { func_addr: site(1), offset: 0 }, vec![None])),
            E::VP(path(reg(Reg::RAX), vec![Some(0), None])),
        ]
    );
    // a variable on the left that is not the stack pointer hides one on the right
    assert_eq!(
        extract(&add(var(reg64("RAX")), var(reg64("RSP"))), &db),
        vec![
            E::VP(path(reg(Reg::RAX), vec![Some(0), None])),
            E::VP(path(Var::StackSlot { func_addr: site(1), offset: 0 }, vec![None])),
        ]
    );
}

#[test]
fn extract_expr_field_arithmetic() {
    let db: TmpDb = SortedMap::new();
    assert_eq!(
        extract(&add(var(reg64("RAX")), konst(8)), &db),
        vec![E::VP(path(reg(Reg::RAX), vec![Some(0), Some(8)]))]
    );
    assert_eq!(
        extract(&add(konst(16), var(reg64("RAX"))), &db),
        vec![E::VP(path(reg(Reg::RAX), vec![Some(0), Some(16)]))]
    );
    assert_eq!(extract(&add(konst(16), konst(1)), &db), vec![E::Const(17)]);
    assert_eq!(extract(&add(konst(u64::MAX), konst(2)), &db), vec![E::Const(1)]);
    assert_eq!(
        extract(&load(add(var(reg64("RAX")), konst(8))), &db),
        vec![E::VP(path(reg(Reg::RAX), vec![Some(0), Some(8), Some(0)]))]
    );
    assert_eq!(extract(&load(konst(0x601000)), &db), vec![]);
    let sub = Expression::BinOp {
        op: BinOp::Subtract,
        lhs: Box::new(var(reg64("RDI"))),
        rhs: Box::new(add(var(reg64("RAX")), konst(8))),
    };
    // other operations lose the offset; the result is sorted and without repetition
    assert_eq!(
        extract(&sub, &db),
        vec![
            E::VP(path(reg(Reg::RAX), vec![Some(0), None])),
            E::VP(path(reg(Reg::RDI), vec![Some(0), None])),
        ]
    );
    let same = Expression::BinOp {
        op: BinOp::Xor,
        lhs: Box::new(var(reg64("RAX"))),
        rhs: Box::new(add(var(reg64("RAX")), konst(8))),
    };
    assert_eq!(extract(&same, &db), vec![E::VP(path(reg(Reg::RAX), vec![Some(0), None]))]);
    let ite = Expression::IfThenElse {
        cond: Box::new(konst(1)),
        true_expr: Box::new(var(reg64("RAX"))),
        false_expr: Box::new(konst(0)),
    };
    assert_eq!(extract(&ite, &db), vec![E::VP(reg_path(Reg::RAX)), E::Const(0)]);
    let cast = Expression::Cast { kind: Cast::Low, width: 32, arg: Box::new(var(reg64("RCX"))) };
    assert_eq!(extract(&cast, &db), vec![E::VP(reg_path(Reg::RCX))]);
    let unknown = Expression::Unknown { description: "?".to_string(), type_: Type::Immediate(64) };
    assert_eq!(extract(&unknown, &db), vec![]);
    let bound = Expression::Let {
        bound_var: reg64("RAX"),
        bound_expr: Box::new(konst(1)),
        body_expr: Box::new(var(reg64("RAX"))),
    };
    assert_eq!(extract(&bound, &db), vec![]);
    assert_eq!(extract(&store(var(reg64("RAX")), konst(1)), &db), vec![]);
}

#[test]
fn extract_constraints_of_moves_loads_and_stores() {
    // RBX := RAX
    let cs = extract_constraints(&vec![mov(reg64("RBX"), var(reg64("RAX")))], &site(0x10), &site(1));
    assert_eq!(cs, vec![Constraint { lhs: reg_path(Reg::RBX), rhss: vec![reg_path(Reg::RAX)] }]);
    // RBX := mem[RAX + 8]
    let cs = extract_constraints(
        &vec![mov(reg64("RBX"), load(add(var(reg64("RAX")), konst(8))))],
        &site(0x10),
        &site(1),
    );
    assert_eq!(
        cs,
        vec![Constraint {
            lhs: reg_path(Reg::RBX),
            rhss: vec![path(reg(Reg::RAX), vec![Some(0), Some(8), Some(0)])],
        }]
    );
    // mem := mem with [RSP + 8] <- RDI
    let cs = extract_constraints(
        &vec![mov(mem(), store(add(var(reg64("RSP")), konst(8)), var(reg64("RDI"))))],
        &site(0x10),
        &site(1),
    );
    assert_eq!(
        cs,
        vec![Constraint {
            lhs: path(
                Var::StackSlot { func_addr: site(1), offset: 8 },
                vec![Some(0), Some(0)]
            ),
            rhss: vec![reg_path(Reg::RDI)],
        }]
    );
    // a store of a constant, a write to the stack pointer and a flag give nothing
    let flag = Variable { name: "ZF".to_string(), type_: Type::Immediate(1), tmp: false, index: 0 };
    let cs = extract_constraints(
        &vec![
            mov(mem(), store(var(reg64("RAX")), konst(0))),
            mov(reg64("RSP"), add(var(reg64("RSP")), konst(8))),
            mov(flag, var(reg64("RAX"))),
            mov(mem(), var(reg64("RAX"))),
            Statement::Jump(konst(0x400000)),
            Statement::Special,
            Statement::CPUException(3),
        ],
        &site(0x10),
        &site(1),
    );
    assert_eq!(cs, vec![]);
}

#[test]
fn extract_constraints_folds_constants_and_clobbers() {
    // #1 := 16; RAX := RBX + #1; RCX := 0
    let cs = extract_constraints(
        &vec![
            mov(tmp64("#1"), konst(16)),
            mov(reg64("RAX"), add(var(reg64("RBX")), var(tmp64("#1")))),
            mov(reg64("RCX"), konst(0)),
            mov(reg64("RDX"), var(reg64("RCX"))),
        ],
        &site(0x10),
        &site(1),
    );
    assert_eq!(
        cs,
        vec![
            Constraint {
                lhs: reg_path(Reg::RAX),
                rhss: vec![path(reg(Reg::RBX), vec![Some(0), Some(16)])],
            },
            Constraint { lhs: reg_path(Reg::RCX), rhss: vec![] },
            Constraint { lhs: reg_path(Reg::RDX), rhss: vec![] },
        ]
    );
    // another write forgets the constant
    let cs = extract_constraints(
        &vec![
            mov(tmp64("#1"), konst(16)),
            mov(tmp64("#1"), var(reg64("RSI"))),
            mov(reg64("RAX"), add(var(reg64("RBX")), var(tmp64("#1")))),
        ],
        &site(0x10),
        &site(1),
    );
    assert_eq!(cs.len(), 2);
    assert_eq!(
        cs[1],
        Constraint {
            lhs: reg_path(Reg::RAX),
            rhss: vec![
                path(reg(Reg::RBX), vec![Some(0), None]),
                path(Var::Temp { serial: 1 }, vec![Some(0), None]),
            ],
        }
    );
}

#[test]
fn extract_constraints_walks_branches_and_loops() {
    let body = vec![mov(reg64("RAX"), var(reg64("RBX")))];
    let other = vec![mov(reg64("RCX"), var(reg64("RDX")))];
    let a = Constraint { lhs: reg_path(Reg::RAX), rhss: vec![reg_path(Reg::RBX)] };
    let c = Constraint { lhs: reg_path(Reg::RCX), rhss: vec![reg_path(Reg::RDX)] };
    let branch = Statement::IfThenElse {
        cond: konst(1),
        then_clause: vec![mov(reg64("RAX"), var(reg64("RBX")))],
        else_clause: other,
    };
    assert_eq!(
        extract_constraints(&vec![branch], &site(0x10), &site(1)),
        vec![a.clone(), c.clone()]
    );
    let lp = Statement::While { cond: konst(1), body };
    // the body of a loop is walked twice
    assert_eq!(
        extract_constraints(&vec![lp], &site(0x10), &site(1)),
        vec![a.clone(), a.clone()]
    );
}

#[test]
fn gen_constraints_gives_none_for_a_call() {
    let bil = vec![mov(reg64("RBX"), var(reg64("RAX")))];
    let l = site(0x10);
    let b = site(1);
    let out = gen_constraints(&ConstraintsGenConstraintsIn {
        bil: &bil,
        loc: &l,
        base: &b,
        is_call: true,
    });
    assert_eq!(out.len(), 1);
    assert!(out[0].c.is_empty());
    let out = gen_constraints(&ConstraintsGenConstraintsIn {
        bil: &bil,
        loc: &l,
        base: &b,
        is_call: false,
    });
    assert_eq!(out.len(), 1);
    assert_eq!(out[0].c.len(), 1);
}

#[test]
fn malloc_and_free_constraints() {
    let l = site(0x400100);
    let out = malloc_constraint(&ConstraintsMallocConstraintIn { loc: &l });
    assert_eq!(out.len(), 1);
    assert_eq!(
        out[0].c,
        vec![Constraint { lhs: reg_path(Reg::RAX), rhss: vec![path(fresh(0x400100), vec![Some(0)])] }]
    );
    let args = vec![0usize];
    let out = free_constraint(&ConstraintsFreeConstraintIn { args: &args, loc: &l });
    assert_eq!(out.len(), 1);
    assert_eq!(
        out[0].c,
        vec![Constraint {
            lhs: path(reg(Reg::RDI), vec![Some(0), None, Some(0)]),
            rhss: vec![path(Var::Freed { site: l.clone() }, vec![Some(0)])],
        }]
    );
    let args = vec![1usize, 5usize];
    let out = free_constraint(&ConstraintsFreeConstraintIn { args: &args, loc: &l });
    assert_eq!(out[0].c.len(), 2);
    assert_eq!(out[0].c[0].lhs.base, reg(Reg::RSI));
    assert_eq!(out[0].c[1].lhs.base, reg(Reg::R9));
}

#[test]
fn resolve_follows_the_points_to_state() {
    let mut pts = PointsToState::new(site(1));
    pts.set_alias(at(reg(Reg::RAX), 0), set(vec![at(fresh(1), 8), at(fresh(2), 0)]));
    pts.set_alias(at(fresh(1), 16), set(vec![at(fresh(3), 0)]));
    // an address names its own base
    assert_eq!(
        rhs_resolve(&pts, path(fresh(9), vec![Some(4)])),
        vec![at(fresh(9), 4)]
    );
    // the value of RAX + 8: what RAX points to, moved by 8
    assert_eq!(
        rhs_resolve(&pts, path(reg(Reg::RAX), vec![Some(0), Some(8)])),
        vec![at(fresh(1), 16), at(fresh(2), 8)]
    );
    assert_eq!(
        rhs_resolve(&pts, path(reg(Reg::RAX), vec![Some(0), None])),
        vec![
            VarRef { var: fresh(1), offset: None },
            VarRef { var: fresh(2), offset: None }
        ]
    );
    // the value of mem[RAX + 8]
    assert_eq!(
        rhs_resolve(&pts, path(reg(Reg::RAX), vec![Some(0), Some(8), Some(0)])),
        vec![at(fresh(3), 0)]
    );
    // writing RAX writes the register itself
    assert_eq!(
        lhs_resolve(&pts, path(reg(Reg::RAX), vec![Some(0), Some(0)])),
        vec![at(reg(Reg::RAX), 0)]
    );
    // writing mem[RAX + 8] writes what RAX points to, moved by 8
    assert_eq!(
        lhs_resolve(&pts, path(reg(Reg::RAX), vec![Some(0), Some(8), Some(0)])),
        vec![at(fresh(1), 16), at(fresh(2), 8)]
    );
}

#[test]
fn apply_makes_strong_and_weak_updates() {
    let mut pts = PointsToState::new(site(1));
    pts.set_alias(at(reg(Reg::RAX), 0), set(vec![at(fresh(1), 0)]));
    pts.set_alias(at(reg(Reg::RBX), 0), set(vec![at(fresh(1), 0), at(fresh(2), 0)]));
    pts.set_alias(at(fresh(1), 0), set(vec![at(fresh(5), 0)]));
    pts.set_alias(at(fresh(2), 0), set(vec![at(fresh(6), 0)]));
    pts.set_alias(at(reg(Reg::RCX), 0), set(vec![at(fresh(7), 0)]));
    // mem[RAX] := RCX is a strong update of the one target
    let mut strong = pts.clone();
    apply(
        &mut strong,
        &Constraint {
            lhs: path(reg(Reg::RAX), vec![Some(0), Some(0), Some(0)]),
            rhss: vec![reg_path(Reg::RCX)],
        },
    );
    assert_eq!(strong.get(&at(fresh(1), 0)).to_vec(), vec![at(fresh(7), 0)]);
    // mem[RBX] := RCX is a weak update of the two targets
    let mut weak = pts.clone();
    apply(
        &mut weak,
        &Constraint {
            lhs: path(reg(Reg::RBX), vec![Some(0), Some(0), Some(0)]),
            rhss: vec![reg_path(Reg::RCX)],
        },
    );
    assert_eq!(weak.get(&at(fresh(1), 0)).to_vec(), vec![at(fresh(5), 0), at(fresh(7), 0)]);
    assert_eq!(weak.get(&at(fresh(2), 0)).to_vec(), vec![at(fresh(6), 0), at(fresh(7), 0)]);
    // a constraint without right-hand sides drops the base
    let mut gone = pts.clone();
    apply(&mut gone, &Constraint::clobber(reg(Reg::RAX)));
    assert!(gone.get_var(&reg(Reg::RAX)).is_empty());
    assert!(!gone.get_var(&reg(Reg::RBX)).is_empty());
}

#[test]
fn apply_ages_the_allocation_before_a_new_one() {
    let mut pts = PointsToState::new(site(1));
    pts.set_alias(at(reg(Reg::RBX), 0), set(vec![at(fresh(0x40), 0)]));
    let l = site(0x40);
    let malloc = malloc_constraint(&ConstraintsMallocConstraintIn { loc: &l });
    apply(&mut pts, &malloc[0].c[0]);
    assert_eq!(pts.get(&at(reg(Reg::RAX), 0)).to_vec(), vec![at(fresh(0x40), 0)]);
    assert_eq!(pts.get(&at(reg(Reg::RBX), 0)).to_vec(), vec![at(stale(0x40), 0)]);
}

fn flow(
    pts: &PointsToState,
    cs: &Vec<Constraint>,
    vars: &Vec<Var>,
    ks: &KillSpec,
) -> PointsToState {
    let l = site(0x10);
    let mut out = xfer(&FlowXferIn { loc: &l, pts, cs, vars, ks });
    assert_eq!(out.len(), 1);
    out.pop().unwrap().pts2
}

#[test]
fn use_after_free_is_found_through_a_copy() {
    // RAX := malloc(); RBX := RAX; RDI := RAX; free(RDI); use of RBX
    let entry = site(1);
    let malloc_at = site(0x100);
    let free_at = site(0x120);
    let live = vec![reg(Reg::RAX), reg(Reg::RBX), reg(Reg::RDI)];
    let none = KillSpec::empty();
    let pts = PointsToState::new(entry.clone());
    let cs = malloc_constraint(&ConstraintsMallocConstraintIn { loc: &malloc_at }).pop().unwrap().c;
    let pts = flow(&pts, &cs, &live, &none);
    let copy = extract_constraints(
        &vec![mov(reg64("RBX"), var(reg64("RAX"))), mov(reg64("RDI"), var(reg64("RAX")))],
        &site(0x110),
        &entry,
    );
    let pts = flow(&pts, &copy, &live, &none);
    let found = is_freed(&FlowIsFreedIn { pts: &pts, v: &reg(Reg::RBX) });
    assert!(found.is_empty());
    let args = vec![0usize];
    let cs = free_constraint(&ConstraintsFreeConstraintIn { args: &args, loc: &free_at })
        .pop()
        .unwrap()
        .c;
    let pts = flow(&pts, &cs, &live, &none);
    let found = is_freed(&FlowIsFreedIn { pts: &pts, v: &reg(Reg::RBX) });
    assert_eq!(found.len(), 1);
    assert_eq!(found[0].loc, free_at);
    let found = is_freed(&FlowIsFreedIn { pts: &pts, v: &reg(Reg::RAX) });
    assert_eq!(found.len(), 1);
    // a register that was set to a constant before the free is no use
    let mut safe = PointsToState::new(entry.clone());
    let cs = malloc_constraint(&ConstraintsMallocConstraintIn { loc: &malloc_at }).pop().unwrap().c;
    safe = flow(&safe, &cs, &live, &none);
    safe = flow(&safe, &copy, &live, &none);
    let nullify = extract_constraints(&vec![mov(reg64("RBX"), konst(0))], &site(0x118), &entry);
    safe = flow(&safe, &nullify, &live, &none);
    let cs = free_constraint(&ConstraintsFreeConstraintIn { args: &args, loc: &free_at })
        .pop()
        .unwrap()
        .c;
    safe = flow(&safe, &cs, &live, &none);
    assert!(is_freed(&FlowIsFreedIn { pts: &safe, v: &reg(Reg::RBX) }).is_empty());
}

#[test]
fn xfer_leaves_no_temporary_and_no_dead_base() {
    let entry = site(1);
    let mut pts = PointsToState::new(entry.clone());
    pts.set_alias(at(reg(Reg::RAX), 0), set(vec![at(fresh(1), 0)]));
    pts.set_alias(at(reg(Reg::RCX), 0), set(vec![at(fresh(2), 0)]));
    let cs = extract_constraints(
        &vec![mov(tmp64("#3"), var(reg64("RAX"))), mov(reg64("RBX"), var(tmp64("#3")))],
        &site(0x10),
        &entry,
    );
    let out = flow(&pts, &cs, &vec![reg(Reg::RAX), reg(Reg::RBX)], &KillSpec::empty());
    assert!(out.get_var(&Var::Temp { serial: 3 }).is_empty());
    assert_eq!(out.get(&at(reg(Reg::RBX), 0)).to_vec(), vec![at(fresh(1), 0)]);
    assert!(out.get_var(&reg(Reg::RCX)).is_empty());
    // the same input gives the same output
    let again = flow(&pts, &cs, &vec![reg(Reg::RAX), reg(Reg::RBX)], &KillSpec::empty());
    assert_eq!(out, again);
}

#[test]
fn xfer_applies_the_kills_of_the_edge() {
    let entry = site(1);
    let callee = site(0x200);
    let mut pts = PointsToState::new(entry.clone());
    pts.add_frame(callee.clone());
    let slot = Var::StackSlot { func_addr: callee.clone(), offset: 8 };
    let own = Var::StackSlot { func_addr: entry.clone(), offset: 8 };
    pts.set_alias(at(reg(Reg::RAX), 0), set(vec![at(fresh(1), 0)]));
    pts.set_alias(at(reg(Reg::RBX), 0), set(vec![at(fresh(1), 0)]));
    pts.set_alias(at(slot.clone(), 0), set(vec![at(fresh(1), 0)]));
    pts.set_alias(at(own.clone(), 0), set(vec![at(fresh(1), 0)]));
    let live = vec![reg(Reg::RAX), reg(Reg::RBX), slot.clone(), own.clone()];
    let out = flow(&pts, &vec![], &live, &KillSpec::StackFrame(callee.clone()));
    assert!(!out.get_var(&reg(Reg::RAX)).is_empty());
    assert!(out.get_var(&reg(Reg::RBX)).is_empty());
    assert!(out.get_var(&slot).is_empty());
    assert!(!out.get_var(&own).is_empty());
    let out = flow(&pts, &vec![], &live, &KillSpec::Registers(vec![Reg::RAX]));
    assert!(out.get_var(&reg(Reg::RAX)).is_empty());
    assert!(!out.get_var(&reg(Reg::RBX)).is_empty());
    assert!(!out.get_var(&slot).is_empty());
}

#[test]
fn stack_purge_enters_the_callee() {
    let entry = site(1);
    let callee = site(0x200);
    let mut pts = PointsToState::new(entry.clone());
    let slot = Var::StackSlot { func_addr: entry.clone(), offset: 8 };
    pts.set_alias(at(reg(Reg::RDI), 0), set(vec![at(slot.clone(), 0)]));
    pts.set_alias(at(reg(Reg::RBX), 0), set(vec![at(fresh(1), 0)]));
    pts.set_alias(at(slot.clone(), 0), set(vec![at(fresh(2), 0)]));
    pts.set_alias(at(fresh(2), 0), set(vec![at(fresh(3), 0)]));
    let out = stack_purge(&FlowStackPurgeIn { pts: &pts, src: &entry, dst: &callee })
        .pop()
        .unwrap()
        .pts2;
    assert!(!out.get_var(&reg(Reg::RDI)).is_empty());
    assert!(out.get_var(&reg(Reg::RBX)).is_empty());
    // reachable from an argument register
    assert!(!out.get_var(&slot).is_empty());
    assert!(!out.get_var(&fresh(2)).is_empty());
    assert!(out.get_var(&fresh(1)).is_empty());
    let kept = out.pt_to().to_vec();
    assert!(kept.contains(&fresh(1)));
    assert!(kept.contains(&slot));
}

#[test]
fn small_flow_functions() {
    let l = site(0x10);
    let base = base_pts(&FlowBasePtsIn { loc: &l }).pop().unwrap().pts;
    assert_eq!(base, PointsToState::new(l.clone()));
    let empty = empty_pts(&FlowEmptyPtsIn { loc: &l }).pop().unwrap().pts;
    assert_eq!(empty, base);
    let mut pts = PointsToState::new(site(1));
    pts.add_live(&vec![fresh(1)]);
    let cleared = dyn_clear(&FlowDynClearIn { pts: &pts, base: &l }).pop().unwrap().pts2;
    assert_eq!(cleared, base);
    let promoted = promote_loc(&FlowPromoteLocIn { src: &l });
    assert_eq!(promoted.len(), 1);
    assert_eq!(promoted[0].src_promoted, vec![l.clone()]);
    let preds = vec![site(1), site(2), site(3)];
    let n = count(&FlowCountIn { preds: &preds });
    assert_eq!(n.len(), 1);
    assert_eq!(n[0].count, 3);
}

#[test]
fn reads_vars_and_use_vars() {
    let l = site(0x10);
    let b = site(1);
    // RBX := mem[mem[RAX]]; mem[RDI] := RSI
    let bil = vec![
        mov(reg64("RBX"), load(load(var(reg64("RAX"))))),
        mov(reg64("RCX"), load(var(reg64("RDX")))),
        mov(mem(), store(var(reg64("RDI")), var(reg64("RSI")))),
    ];
    let out = reads_vars(&UafReadsVarsIn { bil: &bil, loc: &l, base: &b });
    let vars: Vec<Var> = out.into_iter().map(|o| o.v).collect();
    assert_eq!(vars, vec![reg(Reg::RAX), reg(Reg::RDX), reg(Reg::RDI)]);
    assert_eq!(extract_var_use(&bil, &l, &b), vars);
    let used = use_vars(&UafUseVarsIn { r: &Reg::R8 });
    assert_eq!(used.len(), 1);
    assert_eq!(used[0].v, reg(Reg::R8));
}
