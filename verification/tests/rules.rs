use marduk::bil::{BinOp, Endian, Expression, Statement, Type, Variable};
use marduk::context::{add_stack, flow_only_context, stack_fallthrough, strip_stack};
use marduk::datalog::{
    effect_merge, loc_merge, pts_merge, ContextAddStackIn, ContextFlowOnlyContextIn,
    ContextStackFallthroughIn, ContextStripStackIn, EffectApplyEffectIn, EffectMallocIn,
    EffectRemoteApplyEffectIn, EffectUpdatePtsIn, FmtStrAsciiNulltermIn, FmtStrParseStrIn,
    LiveCallDefsIn, LiveDefinedIn, LiveDropFrameIn, LiveDropStackIn, LiveEntryDefinedPromoteIn,
    LiveNotDefinedIn, LivePromoteRegIn, LivePromoteVarIn, LiveUndefLiveIn, LiveUsedIn,
    LoadCallSiteStackIn, LoadCalledFilterIn, LoadCalledUnstackedIn, LoadIsComputedJumpIn,
    LoadIsFreeNameIn, LoadIsMallocNameIn, LoadIsReturningNameIn, LoadSemaSuccIn,
    LoadSingletonStringIn, UseDefDefinesIn, UseDefExcludeCallRegistersIn,
    UseDefExcludeRegistersIn, UseDefExpandRegistersIn, UseDefKillspecRegsIn, UseDefOnlyArgsIn,
    UseDefOnlyRetIn, UseDefStackWipeIn,
};
use marduk::effect::{apply_effect, malloc, remote_apply_effect, update_pts, Effect};
use marduk::fmt_str::{ascii_nullterm, ascii_range, parse_str};
use marduk::interned_string::{InternedString, Interner};
use marduk::live::{
    call_defs, defined, drop_frame, drop_stack, entry_defined_promote, not_defined, promote_reg,
    promote_var, undef_live, used,
};
use marduk::load::{
    call_site_stack, called_filter, called_unstacked, is_computed_jump, is_free_name,
    is_malloc_name, is_returning_name, malloc_name, sema_succ, singleton_string, stmt_succ, Loc,
    Stack,
};
use marduk::points_to::PointsToState;
use marduk::load::{parse_plt, parse_plt_line};
use marduk::measurement::{measure_mode, position};
use marduk::Config;
use marduk::printers::{fmt_vec, parse_loc, show_loc, CB};
use marduk::text::{hex_text, parse_hex};
use marduk::regs::Reg;
use marduk::text::contains_str;
use marduk::uaf::{dedup, dedup_addrs, dedup_locs, uaf_tuple, AddrPair, UafResult};
use marduk::use_def::{
    defines, exclude_call_registers, exclude_registers, expand_registers, killspec_regs,
    only_args, only_ret, stack_wipe, KillSpec,
};
use marduk::var::Var;
use marduk::var_ref::{VarRef, VarSet};

fn file() -> InternedString {
    let mut interner = Interner::new();
    InternedString::from_string("a.elf", &mut interner)
}

fn site(addr: u64) -> Loc {
    Loc { file_name: file(), addr, stack: Stack::NoStack }
}

fn stacked(addr: u64, stack: Stack) -> Loc {
    Loc { file_name: file(), addr, stack }
}

fn reg(r: Reg) -> Var {
    Var::Register { register: r }
}

fn at(var: Var, offset: u64) -> VarRef {
    VarRef { var, offset: Some(offset) }
}

fn set(items: Vec<VarRef>) -> VarSet {
    let mut s = VarSet::new();
    s.extend(&items);
    s
}

fn fresh(addr: u64) -> Var {
    Var::Alloc { site: site(addr), stale: false }
}

fn stale(addr: u64) -> Var {
    Var::Alloc { site: site(addr), stale: true }
}

fn reg64(name: &str) -> Variable {
    Variable { name: name.to_string(), type_: Type::Immediate(64), tmp: false, index: 0 }
}

fn mem() -> Variable {
    Variable {
        name: "mem".to_string(),
        type_: Type::Memory { addr_size: 64, cell_size: 8 },
        tmp: false,
        index: 0,
    }
}

fn var(v: Variable) -> Expression {
    Expression::Var(v)
}

fn konst(k: u64) -> Expression {
    Expression::Const(Some(k))
}

fn load(index: Expression) -> Expression {
    Expression::Load {
        memory: Box::new(var(mem())),
        index: Box::new(index),
        endian: Endian::Little,
        size: 64,
    }
}

fn store(index: Expression, value: Expression) -> Expression {
    Expression::Store {
        memory: Box::new(var(mem())),
        index: Box::new(index),
        value: Box::new(value),
        endian: Endian::Little,
        size: 64,
    }
}

fn mov(lhs: Variable, rhs: Expression) -> Statement {
    Statement::Move { lhs, rhs }
}

#[test]
fn allocator_names() {
    for name in ["malloc", "xmalloc", "g_malloc0", "calloc", "__libc_calloc", "_Znam", "_Znwm"] {
        assert!(malloc_name(name), "{}", name);
        assert_eq!(is_malloc_name(&LoadIsMallocNameIn { func_name: name }).len(), 1);
    }
    for name in ["free", "realloc", "mallo", "_Znam2", "", "alloc"] {
        assert!(!malloc_name(name), "{}", name);
        assert_eq!(is_malloc_name(&LoadIsMallocNameIn { func_name: name }).len(), 0);
    }
    assert!(contains_str("abc", ""));
    assert!(contains_str("abc", "bc"));
    assert!(!contains_str("abc", "abcd"));
    assert!(!contains_str("", "a"));
}

#[test]
fn deallocator_names() {
    for name in ["free", "g_free", "_ZdaPv", "_ZdlPvm"] {
        let out = is_free_name(&LoadIsFreeNameIn { func_name: name });
        assert_eq!(out.len(), 1);
        assert_eq!(out[0].args, vec![0]);
    }
    let out = is_free_name(&LoadIsFreeNameIn { func_name: "qfree" });
    assert_eq!(out.len(), 1);
    assert_eq!(out[0].args, vec![1]);
    for name in ["xfree", "free2", "", "_ZdlPv"] {
        assert!(is_free_name(&LoadIsFreeNameIn { func_name: name }).is_empty());
    }
}

#[test]
fn returning_names() {
    for name in ["abort", "__stack_chk_fail", "exit"] {
        assert!(is_returning_name(&LoadIsReturningNameIn { func_name: name }).is_empty());
    }
    for name in ["_exit", "printf", ""] {
        assert_eq!(is_returning_name(&LoadIsReturningNameIn { func_name: name }).len(), 1);
    }
}

#[test]
fn statement_successors() {
    assert_eq!(stmt_succ(&vec![], 0), (vec![], true));
    assert_eq!(stmt_succ(&vec![Statement::Jump(konst(0x40))], 0), (vec![0x40], false));
    assert_eq!(stmt_succ(&vec![Statement::Jump(var(reg64("RAX")))], 0), (vec![], false));
    assert_eq!(stmt_succ(&vec![Statement::Jump(Expression::Const(None))], 0), (vec![], false));
    let branch = Statement::IfThenElse {
        cond: konst(1),
        then_clause: vec![Statement::Jump(konst(0x40))],
        else_clause: vec![],
    };
    assert_eq!(stmt_succ(&vec![branch], 0), (vec![0x40], true));
    let both = Statement::IfThenElse {
        cond: konst(1),
        then_clause: vec![Statement::Jump(konst(0x40))],
        else_clause: vec![Statement::Jump(konst(0x50))],
    };
    assert_eq!(
        stmt_succ(&vec![both, Statement::Jump(konst(0x60))], 0),
        (vec![0x40, 0x50], false)
    );
    let lp = Statement::While {
        cond: konst(1),
        body: vec![mov(reg64("RAX"), konst(1))],
    };
    assert_eq!(
        stmt_succ(&vec![Statement::Special, lp, Statement::Jump(konst(0x70))], 0),
        (vec![0x70], false)
    );
    let closed = Statement::While { cond: konst(1), body: vec![Statement::Jump(konst(0x80))] };
    assert_eq!(
        stmt_succ(&vec![closed, Statement::Jump(konst(0x70))], 0),
        (vec![0x80], false)
    );
}

#[test]
fn successors_of_an_instruction() {
    let fall = site(0x14);
    let src = site(0x10);
    let bil = vec![Statement::IfThenElse {
        cond: konst(1),
        then_clause: vec![Statement::Jump(konst(0x40))],
        else_clause: vec![],
    }];
    let out = sema_succ(&LoadSemaSuccIn { bil: &bil, fall: &fall, src: &src, is_call: false });
    let dsts: Vec<Loc> = out.into_iter().map(|o| o.dst).collect();
    assert_eq!(dsts, vec![site(0x40), site(0x14)]);
    // without stacks a call carries none
    let out = sema_succ(&LoadSemaSuccIn { bil: &bil, fall: &fall, src: &src, is_call: true });
    assert_eq!(out[0].dst, site(0x40));
    // with stacks a call pushes the return location
    let fall = stacked(0x14, Stack::EmptyStack);
    let src = stacked(0x10, Stack::EmptyStack);
    let call = vec![Statement::Jump(konst(0x200))];
    let out = sema_succ(&LoadSemaSuccIn { bil: &call, fall: &fall, src: &src, is_call: true });
    assert_eq!(out.len(), 1);
    assert_eq!(
        out[0].dst,
        stacked(0x200, Stack::Return(Box::new(stacked(0x14, Stack::EmptyStack))))
    );
    // the stack is cut to depth one
    let deep = Stack::Return(Box::new(stacked(0x99, Stack::EmptyStack)));
    let fall = stacked(0x14, deep.clone());
    let src = stacked(0x10, deep.clone());
    let out = sema_succ(&LoadSemaSuccIn { bil: &call, fall: &fall, src: &src, is_call: true });
    assert_eq!(
        out[0].dst,
        stacked(0x200, Stack::Return(Box::new(stacked(0x14, Stack::EmptyStack))))
    );
    // another edge keeps the stack
    let out = sema_succ(&LoadSemaSuccIn { bil: &call, fall: &fall, src: &src, is_call: false });
    assert_eq!(out[0].dst, stacked(0x200, deep));
}

#[test]
fn computed_jumps() {
    let direct = vec![mov(reg64("RAX"), konst(1)), Statement::Jump(konst(0x40))];
    assert!(is_computed_jump(&LoadIsComputedJumpIn { bil: &direct }).is_empty());
    let computed = vec![Statement::Jump(var(reg64("RAX")))];
    assert_eq!(is_computed_jump(&LoadIsComputedJumpIn { bil: &computed }).len(), 1);
    let none: Vec<Statement> = vec![];
    assert!(is_computed_jump(&LoadIsComputedJumpIn { bil: &none }).is_empty());
}

#[test]
fn call_sites() {
    let call = site(0x10);
    let pad = stacked(0x20, Stack::EmptyStack);
    let target = stacked(0x30, Stack::Return(Box::new(site(1))));
    let out = call_site_stack(&LoadCallSiteStackIn {
        call_loc: &call,
        pad_loc: &pad,
        target_loc: &target,
    });
    assert_eq!(out.len(), 1);
    assert_eq!(out[0].target_loc_adjusted, site(0x30));
    let call = stacked(0x10, Stack::EmptyStack);
    let out = call_site_stack(&LoadCallSiteStackIn {
        call_loc: &call,
        pad_loc: &pad,
        target_loc: &target,
    });
    assert_eq!(out[0].target_loc_adjusted, stacked(0x30, Stack::EmptyStack));
    let plain = site(0x40);
    let out = called_unstacked(&LoadCalledUnstackedIn { loc: &plain });
    assert_eq!(out.len(), 1);
    assert_eq!(out[0].locs, vec![plain.clone()]);
    assert!(called_unstacked(&LoadCalledUnstackedIn { loc: &pad }).is_empty());
    let locs = vec![site(0x40)];
    assert!(called_filter(&LoadCalledFilterIn { locs: &locs, loc: &plain }).is_empty());
    assert!(called_filter(&LoadCalledFilterIn { locs: &locs, loc: &pad }).is_empty());
    let fresh_loc = site(0x50);
    assert_eq!(called_filter(&LoadCalledFilterIn { locs: &locs, loc: &fresh_loc }).len(), 1);
    let name = "printf".to_string();
    let out = singleton_string(&LoadSingletonStringIn { name: &name });
    assert_eq!(out.len(), 1);
    assert_eq!(out[0].names, vec!["printf".to_string()]);
}

#[test]
fn context_functions() {
    let plain = site(0x10);
    let with = stacked(0x10, Stack::EmptyStack);
    assert!(strip_stack(&ContextStripStackIn { stacked: &plain }).is_empty());
    let out = strip_stack(&ContextStripStackIn { stacked: &with });
    assert_eq!(out.len(), 1);
    assert_eq!(out[0].free, plain);
    let out = add_stack(&ContextAddStackIn { free: &plain });
    assert_eq!(out.len(), 1);
    assert_eq!(out[0].stacked, with);
    assert!(flow_only_context(&ContextFlowOnlyContextIn { free: &plain, use_: &plain }).is_empty());
    assert_eq!(flow_only_context(&ContextFlowOnlyContextIn { free: &plain, use_: &with }).len(), 1);
    let deep = stacked(0x30, Stack::Return(Box::new(with.clone())));
    let fall = site(0x20);
    let out = stack_fallthrough(&ContextStackFallthroughIn { fallthrough: &fall, stacked: &deep });
    assert_eq!(out.len(), 1);
    assert_eq!(out[0].fallthrough_stacked, stacked(0x20, Stack::Return(Box::new(with))));
}

#[test]
fn kill_specifications() {
    let none = KillSpec::empty();
    assert_eq!(none, KillSpec::Registers(vec![]));
    assert!(!none.kill(&reg(Reg::RAX)));
    let some = KillSpec::Registers(vec![Reg::RAX, Reg::R11]);
    assert!(some.kill(&reg(Reg::RAX)));
    assert!(some.kill(&reg(Reg::R11)));
    assert!(!some.kill(&reg(Reg::RBX)));
    assert!(!some.kill(&fresh(1)));
    assert!(!some.kill(&Var::StackSlot { func_addr: site(1), offset: 0 }));
    let frame = KillSpec::StackFrame(site(1));
    assert!(frame.kill(&Var::StackSlot { func_addr: site(1), offset: 0 }));
    assert!(!frame.kill(&Var::StackSlot { func_addr: site(2), offset: 0 }));
    assert!(frame.kill(&reg(Reg::RBX)));
    assert!(frame.kill(&reg(Reg::RDI)));
    assert!(!frame.kill(&reg(Reg::RAX)));
    assert!(!frame.kill(&fresh(1)));
    assert!(!frame.kill(&Var::Temp { serial: 0 }));
    let out = killspec_regs(&UseDefKillspecRegsIn {});
    assert_eq!(out.len(), 1);
    assert_eq!(out[0].ks, none);
    let l = site(1);
    let out = stack_wipe(&UseDefStackWipeIn { base: &l });
    assert_eq!(out.len(), 1);
    assert_eq!(out[0].ks, frame);
    let mut pts = PointsToState::new(site(1));
    pts.set_alias(at(reg(Reg::RAX), 0), set(vec![at(reg(Reg::RBX), 0), at(fresh(1), 0)]));
    pts.set_alias(at(reg(Reg::RBX), 0), set(vec![at(fresh(1), 0)]));
    pts.set_alias(at(reg(Reg::RCX), 0), set(vec![at(reg(Reg::RBX), 0)]));
    KillSpec::Registers(vec![Reg::RBX]).purge_pts(&mut pts);
    assert!(pts.get_var(&reg(Reg::RBX)).is_empty());
    assert_eq!(pts.get(&at(reg(Reg::RAX), 0)).to_vec(), vec![at(fresh(1), 0)]);
    // the offset written stays recorded, with nothing left at it
    assert!(pts.get(&at(reg(Reg::RCX), 0)).is_empty());
    assert!(!pts.get_var(&reg(Reg::RCX)).is_empty());
    // a base whose only record was at an unknown offset is dropped with it
    let mut pts = PointsToState::new(site(1));
    pts.set_alias(
        VarRef { var: reg(Reg::RCX), offset: None },
        set(vec![at(reg(Reg::RBX), 0)]),
    );
    KillSpec::Registers(vec![Reg::RBX]).purge_pts(&mut pts);
    assert!(pts.get_var(&reg(Reg::RCX)).is_empty());
    assert_eq!(pts, PointsToState::new(site(1)));
}

#[test]
fn registers_defined() {
    let flag = Variable { name: "ZF".to_string(), type_: Type::Immediate(1), tmp: false, index: 0 };
    let tmp = Variable { name: "RAX".to_string(), type_: Type::Immediate(64), tmp: true, index: 0 };
    let bil = vec![
        mov(reg64("RDX"), konst(1)),
        mov(flag, konst(1)),
        mov(tmp, konst(1)),
        mov(reg64("XMM0"), konst(1)),
        mov(mem(), store(var(reg64("RAX")), konst(1))),
        Statement::While { cond: konst(1), body: vec![mov(reg64("RAX"), konst(1))] },
        Statement::IfThenElse {
            cond: konst(1),
            then_clause: vec![mov(reg64("RDX"), konst(2))],
            else_clause: vec![mov(reg64("RSP"), konst(2))],
        },
    ];
    let out = defines(&UseDefDefinesIn { bil: &bil });
    assert_eq!(out.len(), 1);
    assert_eq!(out[0].registers, vec![Reg::RAX, Reg::RDX, Reg::RSP]);
    let regs = vec![Reg::RDX, Reg::RAX];
    let out = expand_registers(&UseDefExpandRegistersIn { registers: &regs });
    let got: Vec<Reg> = out.into_iter().map(|o| o.register).collect();
    assert_eq!(got, regs);
    assert!(exclude_registers(&UseDefExcludeRegistersIn {
        prev_defines: &regs,
        register: &Reg::RAX
    })
    .is_empty());
    assert_eq!(
        exclude_registers(&UseDefExcludeRegistersIn { prev_defines: &regs, register: &Reg::RBX })
            .len(),
        1
    );
    assert!(exclude_call_registers(&UseDefExcludeCallRegistersIn { register: &Reg::R10 })
        .is_empty());
    assert_eq!(
        exclude_call_registers(&UseDefExcludeCallRegistersIn { register: &Reg::R12 }).len(),
        1
    );
    assert_eq!(only_args(&UseDefOnlyArgsIn { register: &Reg::RSI }).len(), 1);
    assert!(only_args(&UseDefOnlyArgsIn { register: &Reg::RAX }).is_empty());
    assert_eq!(only_ret(&UseDefOnlyRetIn { register: &Reg::RAX }).len(), 1);
    assert!(only_ret(&UseDefOnlyRetIn { register: &Reg::RDI }).is_empty());
}

#[test]
fn liveness_of_an_instruction() {
    let l = site(0x10);
    let b = site(1);
    let rsp8 = Expression::BinOp {
        op: BinOp::Add,
        lhs: Box::new(var(reg64("RSP"))),
        rhs: Box::new(konst(8)),
    };
    let bil = vec![
        mov(reg64("RBX"), load(var(reg64("RAX")))),
        mov(mem(), store(rsp8, var(reg64("RDI")))),
        mov(mem(), store(var(reg64("RCX")), load(var(reg64("RSI"))))),
        mov(reg64("RSP"), var(reg64("RBP"))),
    ];
    let out = defined(&LiveDefinedIn { bil: &bil, loc: &l, base: &b });
    assert_eq!(out.len(), 1);
    assert_eq!(
        out[0].vars,
        vec![reg(Reg::RBX), Var::StackSlot { func_addr: site(1), offset: 8 }]
    );
    let out = used(&LiveUsedIn { bil: &bil, loc: &l, base: &b });
    let vars: Vec<Var> = out.into_iter().map(|o| o.var).collect();
    assert_eq!(
        vars,
        vec![reg(Reg::RAX), reg(Reg::RDI), reg(Reg::RCX), reg(Reg::RSI)]
    );
    let known = vec![reg(Reg::RAX)];
    assert!(not_defined(&LiveNotDefinedIn { vars: &known, var: &reg(Reg::RAX) }).is_empty());
    assert_eq!(not_defined(&LiveNotDefinedIn { vars: &known, var: &reg(Reg::RBX) }).len(), 1);
    let out = promote_var(&LivePromoteVarIn { var: &reg(Reg::RBX) });
    assert_eq!(out[0].vars, vec![reg(Reg::RBX)]);
    let out = call_defs(&LiveCallDefsIn {});
    assert_eq!(out[0].vars, vec![reg(Reg::RAX)]);
    let slot = Var::StackSlot { func_addr: site(1), offset: 8 };
    assert!(drop_stack(&LiveDropStackIn { var: &slot }).is_empty());
    assert_eq!(drop_stack(&LiveDropStackIn { var: &reg(Reg::RAX) }).len(), 1);
    assert!(drop_frame(&LiveDropFrameIn { var: &slot, func: &site(1) }).is_empty());
    assert_eq!(drop_frame(&LiveDropFrameIn { var: &slot, func: &site(2) }).len(), 1);
    assert_eq!(drop_frame(&LiveDropFrameIn { var: &reg(Reg::RAX), func: &site(1) }).len(), 1);
    assert_eq!(promote_reg(&LivePromoteRegIn { reg: &Reg::RDX })[0].var, reg(Reg::RDX));
    assert_eq!(
        entry_defined_promote(&LiveEntryDefinedPromoteIn { register: &Reg::RDX })[0].vars,
        vec![reg(Reg::RDX)]
    );
}

#[test]
fn undefined_arguments_get_a_region() {
    let l = site(0x100);
    let live = vec![reg(Reg::RDI), reg(Reg::RBX), reg(Reg::RSI), reg(Reg::RDX)];
    let defs = vec![reg(Reg::RDX)];
    let out = undef_live(&LiveUndefLiveIn { loc: &l, live: &live, defined: &defs });
    assert_eq!(out.len(), 1);
    let pts = &out[0].pts;
    let cell = |serial: usize| Var::Constructed { site: l.clone(), serial };
    // RDI points from its first four words to the cells 0 to 3
    for w in 0..4u64 {
        assert_eq!(
            pts.get(&at(reg(Reg::RDI), w * 8)).to_vec(),
            vec![at(cell(w as usize), 0)]
        );
    }
    // cell 1 points to the cells 8 to 11
    for w in 0..4u64 {
        assert_eq!(pts.get(&at(cell(1), w * 8)).to_vec(), vec![at(cell(8 + w as usize), 0)]);
    }
    // the cells of the last level of RDI point nowhere
    assert!(pts.get_var(&cell(4)).is_empty());
    assert!(pts.get_var(&cell(19)).is_empty());
    // RSI has the cells from 20 on
    assert_eq!(pts.get(&at(reg(Reg::RSI), 8)).to_vec(), vec![at(cell(21), 0)]);
    assert_eq!(pts.get(&at(cell(23), 24)).to_vec(), vec![at(cell(39), 0)]);
    assert!(pts.get_var(&reg(Reg::RBX)).is_empty());
    assert!(pts.get_var(&reg(Reg::RDX)).is_empty());
    // nothing where every live argument is defined
    let all = vec![reg(Reg::RDI), reg(Reg::RSI), reg(Reg::RDX)];
    assert!(undef_live(&LiveUndefLiveIn { loc: &l, live: &live, defined: &all }).is_empty());
    let none: Vec<Var> = vec![];
    assert!(undef_live(&LiveUndefLiveIn { loc: &l, live: &none, defined: &none }).is_empty());
}

fn effect(does: Vec<u64>, maybe: Vec<u64>) -> Effect {
    let mut e = Effect::nop();
    for a in does {
        e.malloc(&site(a));
    }
    for a in maybe {
        e.maybe_malloc(&site(a));
    }
    e
}

#[test]
fn effects_merge_and_apply() {
    let a = effect(vec![1, 2], vec![3]);
    let b = effect(vec![2, 4], vec![5]);
    // certain on both: 2; certain on one only: 1, 4; possible: 3, 5
    assert_eq!(a.merge(&b), effect(vec![2], vec![1, 3, 4, 5]));
    assert_eq!(a.merge(&a), a);
    assert_eq!(Effect::nop().merge(&a), effect(vec![], vec![1, 2, 3]));
    let mut c = a.clone();
    c.apply(&b);
    assert_eq!(c, effect(vec![1, 2, 4], vec![3, 5]));
    let mut d = effect(vec![5], vec![2]);
    d.apply(&effect(vec![2], vec![5]));
    assert_eq!(d, effect(vec![2], vec![5]));
    let mut e = effect(vec![], vec![7]);
    e.malloc(&site(7));
    assert_eq!(e, effect(vec![7], vec![]));
    e.maybe_malloc(&site(7));
    assert_eq!(e, effect(vec![], vec![7]));
    let out = apply_effect(&EffectApplyEffectIn { effect: &a, effect_call: &b });
    assert_eq!(out.len(), 1);
    assert_eq!(out[0].effect2, c);
    let out = remote_apply_effect(&EffectRemoteApplyEffectIn {
        name: "helper",
        effect: &a,
        effect_call: &b,
    });
    assert_eq!(out.len(), 1);
    assert_eq!(out[0].effect2, c);
    assert!(remote_apply_effect(&EffectRemoteApplyEffectIn {
        name: "xmalloc",
        effect: &a,
        effect_call: &b,
    })
    .is_empty());
    let l = site(9);
    let out = malloc(&EffectMallocIn { effect: &a, local: &l });
    assert_eq!(out[0].effect2, effect(vec![1, 2, 9], vec![3]));
    assert_eq!(effect_merge(&[&a, &b]), a.merge(&b));
    assert_eq!(effect_merge(&[&a]), a);
    assert_eq!(effect_merge(&[&a, &b, &a]), a.merge(&b).merge(&a));
}

#[test]
fn effects_update_the_state() {
    let mut pts = PointsToState::new(site(0));
    pts.set_alias(at(reg(Reg::RAX), 0), set(vec![at(fresh(1), 0)]));
    pts.set_alias(at(reg(Reg::RBX), 0), set(vec![at(fresh(2), 0)]));
    pts.set_alias(at(reg(Reg::RCX), 0), set(vec![at(fresh(3), 0)]));
    let e = effect(vec![1], vec![2]);
    let out = update_pts(&EffectUpdatePtsIn { effect: &e, pts: &pts });
    assert_eq!(out.len(), 1);
    let got = &out[0].pts2;
    assert_eq!(got.get(&at(reg(Reg::RAX), 0)).to_vec(), vec![at(stale(1), 0)]);
    assert_eq!(
        got.get(&at(reg(Reg::RBX), 0)).to_vec(),
        vec![at(fresh(2), 0), at(stale(2), 0)]
    );
    assert_eq!(got.get(&at(reg(Reg::RCX), 0)).to_vec(), vec![at(fresh(3), 0)]);
}

#[test]
fn merges_of_states_and_location_sets() {
    let mut a = PointsToState::new(site(1));
    a.set_alias(at(reg(Reg::RAX), 0), set(vec![at(fresh(1), 0)]));
    let mut b = PointsToState::new(site(2));
    b.set_alias(at(reg(Reg::RAX), 0), set(vec![at(fresh(2), 0)]));
    let mut want = a.clone();
    want.merge(&b);
    assert_eq!(pts_merge(&[&a, &b]), want);
    assert_eq!(pts_merge(&[&a]), a);
    let x = vec![site(1), site(2)];
    let y = vec![site(2), site(3), site(1)];
    assert_eq!(loc_merge(&[&x, &y]), vec![site(1), site(2), site(3)]);
    assert_eq!(loc_merge(&[&y, &x]), vec![site(2), site(3), site(1)]);
    assert_eq!(loc_merge(&[]), vec![]);
}

#[test]
fn format_strings() {
    let args = |s: &str| -> Vec<Reg> {
        let s = s.to_string();
        parse_str(&FmtStrParseStrIn { str: &s }).into_iter().map(|o| o.arg).collect()
    };
    assert_eq!(args(""), vec![]);
    assert_eq!(args("%"), vec![]);
    assert_eq!(args("hello\n"), vec![]);
    assert_eq!(args("%d"), vec![Reg::RDI]);
    assert_eq!(args("%d %s"), vec![Reg::RDI, Reg::RSI]);
    assert_eq!(args("100%% of %s"), vec![Reg::RDI]);
    assert_eq!(args("%%%d"), vec![Reg::RDI]);
    assert_eq!(args("%%d"), vec![]);
    // a percent sign at the end converts nothing
    assert_eq!(args("%d%"), vec![Reg::RDI]);
    assert_eq!(
        args("%a%b%c%d%e%f"),
        vec![Reg::RDI, Reg::RSI, Reg::RDX, Reg::RCX, Reg::R8, Reg::R9]
    );
}

#[test]
fn strings_in_segments() {
    let contents = b"ab\0hi %d\n\0\x01x\0".to_vec();
    let text = |addr: u64| -> Vec<String> {
        ascii_nullterm(&FmtStrAsciiNulltermIn { start: 0x1000, addr, end: 0x2000, contents: &contents })
            .into_iter()
            .map(|o| o.str)
            .collect()
    };
    assert_eq!(text(0x1000), vec!["ab".to_string()]);
    assert_eq!(text(0x1001), vec!["b".to_string()]);
    assert_eq!(text(0x1002), vec!["".to_string()]);
    assert_eq!(text(0x1003), vec!["hi %d\n".to_string()]);
    // a byte that is not printable comes first
    assert_eq!(text(0x100a), Vec::<String>::new());
    assert_eq!(text(0x100b), vec!["x".to_string()]);
    // outside the segment
    assert_eq!(text(0xfff), Vec::<String>::new());
    assert_eq!(text(0x2000), Vec::<String>::new());
    assert!(ascii_range(b' ') && ascii_range(b'~') && ascii_range(7) && ascii_range(13));
    assert!(!ascii_range(0) && !ascii_range(6) && !ascii_range(14) && !ascii_range(0x7f));
    assert!(!ascii_range(0x1f) && !ascii_range(0x80));
}

#[test]
fn lists_are_rendered_between_brackets() {
    assert_eq!(fmt_vec(&vec![]), "[]");
    assert_eq!(fmt_vec(&vec!["a".to_string()]), "[a]");
    assert_eq!(
        fmt_vec(&vec!["a".to_string(), "b".to_string(), "c".to_string()]),
        "[a, b, c]"
    );
    let v = vec!["x".to_string(), "".to_string()];
    assert_eq!(CB(&v).to_string(), "[x, ]");
}

#[test]
fn results_are_told_apart_by_address_or_by_location() {
    let caller_a = Stack::Return(Box::new(stacked(0x10, Stack::EmptyStack)));
    let caller_b = Stack::Return(Box::new(stacked(0x20, Stack::EmptyStack)));
    let results = vec![
        UafResult { free: stacked(0x200, caller_b.clone()), use_: stacked(0x300, caller_b.clone()) },
        UafResult { free: stacked(0x200, caller_a.clone()), use_: stacked(0x300, caller_a.clone()) },
        UafResult { free: stacked(0x100, caller_a.clone()), use_: stacked(0x400, caller_a.clone()) },
        UafResult { free: stacked(0x200, caller_a.clone()), use_: stacked(0x300, caller_a.clone()) },
    ];
    assert_eq!(uaf_tuple(&results[0]), (0x200, 0x300));
    assert_eq!(
        dedup_addrs(&results),
        vec![AddrPair { free: 0x100, use_: 0x400 }, AddrPair { free: 0x200, use_: 0x300 }]
    );
    assert_eq!(dedup(&results, false), dedup_addrs(&results));
    let full = dedup_locs(&results);
    assert_eq!(full.len(), 3);
    assert_eq!(full[0].free.addr, 0x100);
    assert_eq!(full[1].free, stacked(0x200, caller_a.clone()));
    assert_eq!(full[2].free, stacked(0x200, caller_b.clone()));
    // with call stacks the one pair of addresses is reported for each caller
    assert_eq!(
        dedup(&results, true),
        vec![
            AddrPair { free: 0x100, use_: 0x400 },
            AddrPair { free: 0x200, use_: 0x300 },
            AddrPair { free: 0x200, use_: 0x300 },
        ]
    );
    assert_eq!(dedup(&vec![], true), vec![]);
    assert_eq!(dedup(&vec![], false), vec![]);
}

#[test]
fn hexadecimal_numbers() {
    assert_eq!(hex_text(0), "0");
    assert_eq!(hex_text(0xf), "f");
    assert_eq!(hex_text(0x10), "10");
    assert_eq!(hex_text(0x411ba6), "411ba6");
    assert_eq!(hex_text(u64::MAX), "ffffffffffffffff");
    assert_eq!(parse_hex("0"), Some(0));
    assert_eq!(parse_hex("411ba6"), Some(0x411ba6));
    assert_eq!(parse_hex("00000000004005A0"), Some(0x4005a0));
    assert_eq!(parse_hex("+1f"), Some(0x1f));
    assert_eq!(parse_hex("ffffffffffffffff"), Some(u64::MAX));
    assert_eq!(parse_hex("10000000000000000"), None);
    assert_eq!(parse_hex("000000000000000000001"), Some(1));
    assert_eq!(parse_hex(""), None);
    assert_eq!(parse_hex("+"), None);
    assert_eq!(parse_hex("0x10"), None);
    assert_eq!(parse_hex("-1"), None);
    assert_eq!(parse_hex("12g"), None);
    for n in [0u64, 1, 9, 10, 15, 16, 255, 256, 0x40b1dc, u64::MAX - 1, u64::MAX] {
        assert_eq!(parse_hex(&hex_text(n)), Some(n));
        assert_eq!(hex_text(n), format!("{:x}", n));
    }
}

#[test]
fn linkage_table_listing() {
    assert_eq!(
        parse_plt_line("0000000000400580 <free@plt>:"),
        Some((0x400580, "free".to_string()))
    );
    assert_eq!(
        parse_plt_line("4005a0 <__libc_start_main@plt>: more"),
        Some((0x4005a0, "__libc_start_main".to_string()))
    );
    assert_eq!(parse_plt_line("4005a0 <plain>:"), Some((0x4005a0, "plain>:".to_string())));
    assert_eq!(parse_plt_line("4005a0 x"), Some((0x4005a0, "".to_string())));
    assert_eq!(parse_plt_line("4005a0"), None);
    assert_eq!(parse_plt_line("4005a0 "), None);
    assert_eq!(parse_plt_line("4005a0  <a@plt>:"), None);
    assert_eq!(parse_plt_line("zz <a@plt>:"), None);
    assert_eq!(parse_plt_line(" <a@plt>:"), None);
    assert_eq!(parse_plt_line(""), None);
    let listing = "0000000000400580 <free@plt>:\n\n0000000000400590 <malloc@plt>:\n";
    assert_eq!(
        parse_plt(listing),
        Some(vec![(0x400580, "free".to_string()), (0x400590, "malloc".to_string())])
    );
    assert_eq!(parse_plt(""), Some(vec![]));
    assert_eq!(parse_plt("\n\n"), Some(vec![]));
    assert_eq!(parse_plt("400580 <free@plt>:"), Some(vec![(0x400580, "free".to_string())]));
    assert_eq!(parse_plt("400580 <free@plt>:\nbroken\n"), None);
}

#[test]
fn locations_are_shown_and_read_back() {
    assert_eq!(show_loc(&site(0x411ba6)), "0x411ba6");
    assert_eq!(show_loc(&stacked(0x10, Stack::EmptyStack)), "0x10{}");
    let deep = stacked(
        0x4124d1,
        Stack::Return(Box::new(stacked(0x40, Stack::Return(Box::new(stacked(0, Stack::EmptyStack)))))),
    );
    assert_eq!(show_loc(&deep), "0x4124d1+0x40+0x0{}");
    for l in [site(0), site(0x40b230), stacked(0x40aa1f, Stack::EmptyStack), deep] {
        let back = parse_loc(&show_loc(&l), l.file_name).unwrap();
        assert_eq!(back, site(l.addr));
    }
    assert_eq!(parse_loc("411ba6", file()), None);
    assert_eq!(parse_loc("0x", file()), None);
    assert_eq!(parse_loc("0xzz", file()), None);
    assert_eq!(parse_loc("0x1F rest", file()), Some(site(0x1f)));
}

#[test]
fn a_run_is_measured_against_what_is_expected() {
    let caller = Stack::Return(Box::new(stacked(0x10, Stack::EmptyStack)));
    let pair = |free: u64, use_: u64, stack: &Stack| UafResult {
        free: stacked(free, stack.clone()),
        use_: stacked(use_, stack.clone()),
    };
    let results = vec![
        pair(0x411ba6, 0x4124d1, &Stack::NoStack),
        pair(0x500, 0x600, &Stack::NoStack),
        pair(0x411ba6, 0x4124d1, &Stack::NoStack),
        pair(0x100, 0x200, &caller),
        pair(0x700, 0x800, &caller),
    ];
    let names = vec!["gnome-nettool".to_string()];
    let expected = vec![(0x411ba6, 0x4124d1), (0x100, 0x200), (0x900, 0xa00), (0x100, 0x200)];
    let m = measure_mode(&results, &names, Config::context_insensitive(), &expected, 61, 2048);
    assert_eq!(m.mode, Config::context_insensitive());
    assert_eq!(m.artifact, names);
    assert_eq!(m.true_positives, 2);
    assert_eq!(m.false_positives, 2);
    assert_eq!(m.true_negatives, vec![(0x900, 0xa00), (0x100, 0x200)]);
    assert_eq!(
        m.found,
        vec![(0x100, 0x200), (0x500, 0x600), (0x700, 0x800), (0x411ba6, 0x4124d1)]
    );
    assert_eq!(m.time, 61);
    assert_eq!(m.space, 2048);
    // with call stacks the results without one are passed over
    let m = measure_mode(&results, &names, Config::context_sensitive(), &expected, 1, 1);
    assert_eq!(m.true_positives, 1);
    assert_eq!(m.false_positives, 1);
    assert_eq!(m.found, vec![(0x100, 0x200), (0x700, 0x800)]);
    assert_eq!(m.true_negatives, vec![(0x411ba6, 0x4124d1), (0x900, 0xa00), (0x100, 0x200)]);
    let none = measure_mode(&vec![], &names, Config::context_sensitive(), &vec![], 0, 0);
    assert_eq!(none.true_positives, 0);
    assert_eq!(none.false_positives, 0);
    assert_eq!(position(&expected, (0x100, 0x200)), Some(1));
    assert_eq!(position(&expected, (0x1, 0x2)), None);
}
