//! Constraints from the semantics of an instruction.

use vstd::prelude::*;
use crate::bil::{BinOp, Expression, Statement, Type, Variable};
use crate::constraints::{
    Constraint,
    ConstraintView,
    VarPath,
    VarPathView,
    insert_path,
    path_views,
};
use crate::convert::to_usize;
use crate::flow::constraint_ok;
use crate::interned_string::str_eq;
use crate::load::Loc;
use crate::regs::{Reg, reg_of_name};
use crate::sorted_map::SortedMap;
use crate::sorted_set::{ascending, elements, lemma_elements, members};
use crate::var::{Var, parse_temp_serial, temp_serial};

verus! {

/// The registers known to hold a constant, each with the constant.
pub type TmpDb = SortedMap<Var, u64>;

/// What an expression may evaluate to: what a path names, or a constant.
#[derive(Debug, PartialEq, Eq, PartialOrd, Ord, Hash)]
pub enum E {
    VP(VarPath),
    Const(u64),
}

/// The mathematical content of an `E`.
pub enum EView {
    VP(VarPathView),
    Const(u64),
}

impl View for E {
    type V = EView;

    open spec fn view(&self) -> EView {
        match *self {
            E::VP(p) => EView::VP(p@),
            E::Const(k) => EView::Const(k),
        }
    }
}

/// The contents of the values `s`.
pub open spec fn e_views(s: Seq<E>) -> Seq<EView> {
    s.map_values(|e: E| e@)
}

/// Every path among `s` has an offset.
pub open spec fn es_ok(s: Seq<EView>) -> bool {
    forall|i: int| 0 <= i < s.len() ==> ((#[trigger] s[i]) matches EView::VP(p) ==> p.offsets.len() >= 1)
}

/// What the variable `bv` names, if the analysis tracks it: the address of
/// the frame's first slot for the stack pointer, the register of its name,
/// or the temporary of its serial number.
pub open spec fn var_path(bv: Variable, func: Loc) -> Option<VarPathView> {
    if bv.name@ == "RSP"@ {
        Some(VarPathView::addr(Var::StackSlot { func_addr: func, offset: 0 }))
    } else {
        match reg_of_name(bv.name@) {
            Some(register) => Some(VarPathView::var(Var::Register { register })),
            None => if bv.tmp {
                match temp_serial(bv.name@) {
                    Some(serial) => Some(VarPathView::var(Var::Temp { serial })),
                    None => None,
                }
            } else {
                None
            },
        }
    }
}

/// The stack slot that the sum of the stack pointer and the constant `k` names.
pub open spec fn stack_sum(k: Option<u64>, func: Loc) -> Seq<EView> {
    match k {
        Some(k) => if k <= usize::MAX {
            seq![EView::VP(VarPathView::addr(Var::StackSlot { func_addr: func, offset: k as usize }))]
        } else {
            Seq::empty()
        },
        None => Seq::empty(),
    }
}

/// The sum of two values: a path moved by a constant, the wrapping sum of
/// two constants, or, of two paths, both at an unknown offset.
pub open spec fn add_pair(e0: EView, e1: EView) -> Seq<EView> {
    match (e0, e1) {
        (EView::Const(k), EView::VP(v)) => seq![EView::VP(v.plus(k))],
        (EView::VP(v), EView::Const(k)) => seq![EView::VP(v.plus(k))],
        (EView::Const(k), EView::Const(k2)) => seq![EView::Const(k.wrapping_add(k2))],
        (EView::VP(v), EView::VP(v2)) => seq![EView::VP(v.unknown()), EView::VP(v2.unknown())],
    }
}

/// The sums of `e0` with each of `rhe`.
pub open spec fn add_row(e0: EView, rhe: Seq<EView>) -> Seq<EView>
    decreases rhe.len(),
{
    if rhe.len() == 0 {
        Seq::empty()
    } else {
        add_row(e0, rhe.drop_last()) + add_pair(e0, rhe.last())
    }
}

/// The sums of each of `lhe` with each of `rhe`.
pub open spec fn add_all(lhe: Seq<EView>, rhe: Seq<EView>) -> Seq<EView>
    decreases lhe.len(),
{
    if lhe.len() == 0 {
        Seq::empty()
    } else {
        add_all(lhe.drop_last(), rhe) + add_row(lhe.last(), rhe)
    }
}

/// The values of a load through each of `es`: a path dereferenced; nothing
/// for a constant.
pub open spec fn deref_all(es: Seq<EView>) -> Seq<EView>
    decreases es.len(),
{
    if es.len() == 0 {
        Seq::empty()
    } else {
        match es.last() {
            EView::VP(v) => deref_all(es.drop_last()).push(EView::VP(v.deref())),
            EView::Const(_) => deref_all(es.drop_last()),
        }
    }
}

/// The paths among `es`, each at an unknown last offset, in order.
pub open spec fn unknowns(es: Seq<EView>) -> Seq<VarPathView>
    decreases es.len(),
{
    if es.len() == 0 {
        Seq::empty()
    } else {
        match es.last() {
            EView::VP(v) => unknowns(es.drop_last()).push(v.unknown()),
            EView::Const(_) => unknowns(es.drop_last()),
        }
    }
}

/// The paths `ps` as values.
pub open spec fn vp_all(ps: Seq<VarPathView>) -> Seq<EView> {
    ps.map_values(|p: VarPathView| EView::VP(p))
}

/// The constant added to the stack pointer, where `lhs + rhs` is such a sum:
/// the left operand is the stack pointer and the right a constant, or the
/// left is no variable, the right is the stack pointer and the left a
/// constant.
pub open spec fn stack_relative(lhs: Expression, rhs: Expression) -> Option<Option<u64>> {
    match lhs {
        Expression::Var(lv) => if lv.name@ == "RSP"@ {
            match rhs {
                Expression::Const(k) => Some(k),
                _ => None,
            }
        } else {
            None
        },
        _ => match rhs {
            Expression::Var(rv) => if rv.name@ == "RSP"@ {
                match lhs {
                    Expression::Const(k) => Some(k),
                    _ => None,
                }
            } else {
                None
            },
            _ => None,
        },
    }
}

/// What the expression `e` may evaluate to in the function entered at
/// `func`, where the registers of `db` hold the constants given there.
/// Flags, stores, bindings and what the analysis does not track yield
/// nothing.
pub open spec fn extract_spec(e: Expression, func: Loc, db: Map<Var, u64>) -> Seq<EView>
    decreases e,
{
    match e {
        Expression::Var(bv) => {
            if bv.type_ == Type::Immediate(1) {
                Seq::empty()
            } else {
                match var_path(bv, func) {
                    Some(vp) => if db.contains_key(vp.base) {
                        seq![EView::Const(db[vp.base])]
                    } else {
                        seq![EView::VP(vp)]
                    },
                    None => Seq::empty(),
                }
            }
        },
        Expression::Const(Some(k)) => seq![EView::Const(k)],
        Expression::Const(None) => Seq::empty(),
        Expression::Load { index, .. } => deref_all(extract_spec(*index, func, db)),
        Expression::BinOp { op, lhs, rhs } => {
            if op == BinOp::Add {
                match stack_relative(*lhs, *rhs) {
                    Some(k) => stack_sum(k, func),
                    None => add_all(extract_spec(*lhs, func, db), extract_spec(*rhs, func, db)),
                }
            } else {
                vp_all(
                    elements(
                        members(
                            unknowns(extract_spec(*lhs, func, db) + extract_spec(*rhs, func, db)),
                        ),
                    ),
                )
            }
        },
        Expression::IfThenElse { true_expr, false_expr, .. } => extract_spec(
            *true_expr,
            func,
            db,
        ) + extract_spec(*false_expr, func, db),
        Expression::Cast { arg, .. } => extract_spec(*arg, func, db),
        _ => Seq::empty(),
    }
}

/// The list of the one value `e`.
fn one(e: E) -> (r: Vec<E>)
    ensures
        e_views(r@) == seq![e@],
{
    let mut out: Vec<E> = Vec::new();
    out.push(e);
    assert(e_views(out@) =~= seq![e@]);
    out
}

/// The empty list of values.
fn none() -> (r: Vec<E>)
    ensures
        e_views(r@) == Seq::<EView>::empty(),
{
    let out: Vec<E> = Vec::new();
    assert(e_views(out@) =~= Seq::<EView>::empty());
    out
}

/// Appends `sub` to `out`.
fn append_es(out: &mut Vec<E>, sub: Vec<E>)
    ensures
        e_views(final(out)@) == e_views(old(out)@) + e_views(sub@),
{
    let mut sub = sub;
    let ghost a = out@;
    let ghost b = sub@;
    out.append(&mut sub);
    assert(e_views(out@) =~= e_views(a) + e_views(b));
}

/// Appends `e` to `out`.
fn push_e(out: &mut Vec<E>, e: E)
    ensures
        e_views(final(out)@) == e_views(old(out)@).push(e@),
{
    let ghost a = out@;
    out.push(e);
    assert(e_views(out@) =~= e_views(a).push(e@));
}

proof fn lemma_es_ok_add(a: Seq<EView>, b: Seq<EView>)
    requires
        es_ok(a),
        es_ok(b),
    ensures
        es_ok(a + b),
{
    let c = a + b;
    assert forall|i: int| 0 <= i < c.len() implies ((#[trigger] c[i]) matches EView::VP(p)
        ==> p.offsets.len() >= 1) by {
        if i < a.len() {
            assert(c[i] == a[i]);
        } else {
            assert(c[i] == b[i - a.len()]);
        }
    }
}

proof fn lemma_members_push<T>(s: Seq<T>, x: T)
    ensures
        members(s.push(x)) == members(s).insert(x),
{
    let t = s.push(x);
    assert forall|y: T| members(t).contains(y) == members(s).insert(x).contains(y) by {
        if t.contains(y) {
            let i = choose|i: int| 0 <= i < t.len() && t[i] == y;
            if i < s.len() {
                assert(s[i] == y);
            }
        }
        if s.contains(y) {
            let i = choose|i: int| 0 <= i < s.len() && s[i] == y;
            assert(t[i] == y);
        }
        if y == x {
            assert(t[s.len() as int] == y);
        }
    }
    assert(members(t) =~= members(s).insert(x));
}

/// The values of a load through each of `found`.
fn deref_each(found: &Vec<E>) -> (r: Vec<E>)
    ensures
        e_views(r@) == deref_all(e_views(found@)),
        es_ok(e_views(r@)),
{
    let ghost src = e_views(found@);
    let mut out: Vec<E> = none();
    let mut i: usize = 0;
    while i < found.len()
        invariant
            i <= found@.len(),
            src == e_views(found@),
            e_views(out@) == deref_all(src.subrange(0, i as int)),
            es_ok(e_views(out@)),
        decreases found@.len() - i,
    {
        proof {
            assert(src.subrange(0, i + 1).drop_last() =~= src.subrange(0, i as int));
            assert(src.subrange(0, i + 1).last() == found@[i as int]@);
        }
        match &found[i] {
            E::VP(v) => {
                let ghost prev = e_views(out@);
                push_e(&mut out, E::VP(v.deref()));
                proof {
                    let cur = e_views(out@);
                    assert forall|j: int| 0 <= j < cur.len() implies ((#[trigger] cur[j]) matches EView::VP(
                        p,
                    ) ==> p.offsets.len() >= 1) by {
                        if j < prev.len() {
                            assert(cur[j] == prev[j]);
                        }
                    }
                }
            },
            E::Const(_) => {},
        }
        i += 1;
    }
    assert(src.subrange(0, i as int) =~= src);
    out
}

/// The sum of the values `e0` and `e1`.
fn add_two(e0: &E, e1: &E) -> (r: Vec<E>)
    requires
        e0 matches E::VP(p) ==> p.wf(),
        e1 matches E::VP(p) ==> p.wf(),
    ensures
        e_views(r@) == add_pair(e0@, e1@),
        es_ok(e_views(r@)),
{
    match (e0, e1) {
        (E::Const(k), E::VP(v)) => one(E::VP(v.plus(*k))),
        (E::VP(v), E::Const(k)) => one(E::VP(v.plus(*k))),
        (E::Const(k), E::Const(k2)) => one(E::Const(k.wrapping_add(*k2))),
        (E::VP(v), E::VP(v2)) => {
            let mut out = one(E::VP(v.unknown()));
            push_e(&mut out, E::VP(v2.unknown()));
            assert(e_views(out@) =~= add_pair(e0@, e1@));
            out
        },
    }
}

/// The sums of each of `lhe` with each of `rhe`.
fn add_each(lhe: &Vec<E>, rhe: &Vec<E>) -> (r: Vec<E>)
    requires
        es_ok(e_views(lhe@)),
        es_ok(e_views(rhe@)),
    ensures
        e_views(r@) == add_all(e_views(lhe@), e_views(rhe@)),
        es_ok(e_views(r@)),
{
    let ghost l = e_views(lhe@);
    let ghost rr = e_views(rhe@);
    let mut out: Vec<E> = none();
    let mut i: usize = 0;
    while i < lhe.len()
        invariant
            i <= lhe@.len(),
            l == e_views(lhe@),
            rr == e_views(rhe@),
            es_ok(l),
            es_ok(rr),
            e_views(out@) == add_all(l.subrange(0, i as int), rr),
            es_ok(e_views(out@)),
        decreases lhe@.len() - i,
    {
        let ghost base = e_views(out@);
        let mut j: usize = 0;
        proof {
            assert(l.subrange(0, i + 1).drop_last() =~= l.subrange(0, i as int));
            assert(l.subrange(0, i + 1).last() == lhe@[i as int]@);
            assert(l[i as int] == lhe@[i as int]@);
        }
        while j < rhe.len()
            invariant
                j <= rhe@.len(),
                i < lhe@.len(),
                l == e_views(lhe@),
                rr == e_views(rhe@),
                es_ok(l),
                es_ok(rr),
                e_views(out@) == base + add_row(lhe@[i as int]@, rr.subrange(0, j as int)),
                es_ok(e_views(out@)),
            decreases rhe@.len() - j,
        {
            proof {
                assert(rr.subrange(0, j + 1).drop_last() =~= rr.subrange(0, j as int));
                assert(rr.subrange(0, j + 1).last() == rhe@[j as int]@);
                assert(l[i as int] == lhe@[i as int]@);
                assert(rr[j as int] == rhe@[j as int]@);
            }
            let sub = add_two(&lhe[i], &rhe[j]);
            proof {
                lemma_es_ok_add(e_views(out@), e_views(sub@));
            }
            append_es(&mut out, sub);
            assert(e_views(out@) =~= base + add_row(lhe@[i as int]@, rr.subrange(0, j + 1)));
            j += 1;
        }
        assert(rr.subrange(0, j as int) =~= rr);
        i += 1;
    }
    assert(l.subrange(0, i as int) =~= l);
    out
}

/// The paths among `used`, each at an unknown last offset, without
/// repetition and in ascending order.
fn unknown_each(used: &Vec<E>) -> (r: Vec<E>)
    requires
        es_ok(e_views(used@)),
    ensures
        e_views(r@) == vp_all(elements(members(unknowns(e_views(used@))))),
        es_ok(e_views(r@)),
{
    let ghost src = e_views(used@);
    let mut set: Vec<VarPath> = Vec::new();
    let mut i: usize = 0;
    assert(path_views(set@) =~= Seq::<VarPathView>::empty());
    assert(members(path_views(set@)) =~= members(unknowns(src.subrange(0, 0))));
    while i < used.len()
        invariant
            i <= used@.len(),
            src == e_views(used@),
            es_ok(src),
            ascending(path_views(set@)),
            members(path_views(set@)) == members(unknowns(src.subrange(0, i as int))),
            forall|j: int| 0 <= j < set@.len() ==> (#[trigger] set@[j]).wf(),
        decreases used@.len() - i,
    {
        proof {
            assert(src.subrange(0, i + 1).drop_last() =~= src.subrange(0, i as int));
            assert(src.subrange(0, i + 1).last() == used@[i as int]@);
            assert(src[i as int] == used@[i as int]@);
        }
        match &used[i] {
            E::VP(v) => {
                let u = v.unknown();
                proof {
                    lemma_members_push(unknowns(src.subrange(0, i as int)), u@);
                }
                insert_path_wf(&mut set, u);
            },
            E::Const(_) => {},
        }
        i += 1;
    }
    proof {
        assert(src.subrange(0, i as int) =~= src);
        lemma_elements(path_views(set@));
    }
    let mut out: Vec<E> = Vec::new();
    let mut k: usize = 0;
    while k < set.len()
        invariant
            k <= set@.len(),
            out@.len() == k,
            forall|j: int| 0 <= j < set@.len() ==> (#[trigger] set@[j]).wf(),
            forall|j: int| 0 <= j < k ==> (#[trigger] out@[j])@ == EView::VP(set@[j]@),
        decreases set@.len() - k,
    {
        out.push(E::VP(set[k].dup()));
        k += 1;
    }
    proof {
        assert(e_views(out@) =~= vp_all(path_views(set@)));
        let cur = e_views(out@);
        assert forall|j: int| 0 <= j < cur.len() implies ((#[trigger] cur[j]) matches EView::VP(p)
            ==> p.offsets.len() >= 1) by {
            assert(set@[j].wf());
        }
    }
    out
}

/// Puts `p` into the ascending list `paths`, keeping every path well-formed.
fn insert_path_wf(paths: &mut Vec<VarPath>, p: VarPath)
    requires
        ascending(path_views(old(paths)@)),
        p.wf(),
        forall|j: int| 0 <= j < old(paths)@.len() ==> (#[trigger] old(paths)@[j]).wf(),
    ensures
        ascending(path_views(final(paths)@)),
        members(path_views(final(paths)@)) == members(path_views(old(paths)@)).insert(p@),
        forall|j: int| 0 <= j < final(paths)@.len() ==> (#[trigger] final(paths)@[j]).wf(),
{
    insert_path(paths, p);
    proof {
        assert forall|j: int| 0 <= j < paths@.len() implies (#[trigger] paths@[j]).wf() by {
            let v = path_views(paths@)[j];
            assert(v == paths@[j]@);
            assert(path_views(paths@).contains(v));
            assert(members(path_views(paths@)).contains(v));
            if v != p@ {
                assert(members(path_views(old(paths)@)).contains(v));
                let m = choose|m: int|
                    0 <= m < path_views(old(paths)@).len() && path_views(old(paths)@)[m] == v;
                assert(old(paths)@[m].wf());
            }
        }
    }
}

/// What the variable `bv` names, if the analysis tracks it.
fn path_of(bv: &Variable, func_addr: &Loc) -> (r: Option<VarPath>)
    ensures
        match r {
            Some(vp) => var_path(*bv, *func_addr) == Some(vp@) && vp.wf(),
            None => var_path(*bv, *func_addr) is None,
        },
{
    let name = bv.name.as_str();
    if str_eq(name, "RSP") {
        Some(VarPath::stack_addr(func_addr, 0))
    } else {
        match Reg::from_name(name) {
            Some(reg) => Some(VarPath::reg(&reg)),
            None => {
                if bv.tmp {
                    match parse_temp_serial(name) {
                        Some(serial) => Some(VarPath::var(Var::Temp { serial })),
                        None => None,
                    }
                } else {
                    None
                }
            },
        }
    }
}

/// The constant added to the stack pointer, where `lhs + rhs` is such a sum.
fn stack_offset(lhs: &Expression, rhs: &Expression) -> (r: Option<Option<u64>>)
    ensures
        r == stack_relative(*lhs, *rhs),
{
    match lhs {
        Expression::Var(lv) => {
            if str_eq(lv.name.as_str(), "RSP") {
                match rhs {
                    Expression::Const(k) => Some(*k),
                    _ => None,
                }
            } else {
                None
            }
        },
        _ => match rhs {
            Expression::Var(rv) => {
                if str_eq(rv.name.as_str(), "RSP") {
                    match lhs {
                        Expression::Const(k) => Some(*k),
                        _ => None,
                    }
                } else {
                    None
                }
            },
            _ => None,
        },
    }
}

/// What the expression `e` may evaluate to.
pub fn extract_expr(e: &Expression, cur_addr: &Loc, func_addr: &Loc, tmp_db: &TmpDb) -> (r: Vec<E>)
    requires
        tmp_db.wf(),
    ensures
        e_views(r@) == extract_spec(*e, *func_addr, tmp_db@),
        es_ok(e_views(r@)),
    decreases *e,
{
    match e {
        Expression::Var(bv) => {
            if bv.type_ == Type::Immediate(1) {
                return none();
            }
            match path_of(bv, func_addr) {
                Some(vp) => match tmp_db.get(&vp.base) {
                    Some(k) => one(E::Const(*k)),
                    None => one(E::VP(vp)),
                },
                None => none(),
            }
        },
        Expression::Const(Some(k)) => one(E::Const(*k)),
        Expression::Const(None) => none(),
        Expression::Load { index, .. } => {
            let found = extract_expr(index, cur_addr, func_addr, tmp_db);
            deref_each(&found)
        },
        Expression::BinOp { op, lhs, rhs } => {
            if *op == BinOp::Add {
                match stack_offset(lhs, rhs) {
                    Some(k) => {
                        match k {
                            Some(k) => match to_usize(k) {
                                Some(offset) => one(
                                    E::VP(VarPath::stack_addr(func_addr, offset)),
                                ),
                                None => none(),
                            },
                            None => none(),
                        }
                    },
                    None => {
                        let lhe = extract_expr(lhs, cur_addr, func_addr, tmp_db);
                        let rhe = extract_expr(rhs, cur_addr, func_addr, tmp_db);
                        add_each(&lhe, &rhe)
                    },
                }
            } else {
                let mut used = extract_expr(lhs, cur_addr, func_addr, tmp_db);
                let more = extract_expr(rhs, cur_addr, func_addr, tmp_db);
                proof {
                    lemma_es_ok_add(e_views(used@), e_views(more@));
                }
                append_es(&mut used, more);
                unknown_each(&used)
            }
        },
        Expression::IfThenElse { true_expr, false_expr, .. } => {
            let mut out = extract_expr(true_expr, cur_addr, func_addr, tmp_db);
            let more = extract_expr(false_expr, cur_addr, func_addr, tmp_db);
            proof {
                lemma_es_ok_add(e_views(out@), e_views(more@));
            }
            append_es(&mut out, more);
            out
        },
        Expression::Cast { arg, .. } => extract_expr(arg, cur_addr, func_addr, tmp_db),
        _ => none(),
    }
}

/// A function applied to each assignment of an instruction's semantics.
pub trait MoveVisitor {
    /// What the function yields for an assignment.
    type Item;

    /// The mathematical content of an item.
    type ItemView;

    /// The content of `item`.
    spec fn item_view(item: Self::Item) -> Self::ItemView;

    /// What holds of every item that the function yields.
    spec fn item_ok(item: Self::ItemView) -> bool;

    /// What the function yields for the assignment of `rhs` to `lhs`.
    spec fn visit_items(
        &self,
        lhs: Variable,
        rhs: Expression,
        cur: Loc,
        func: Loc,
        db: Map<Var, u64>,
    ) -> Seq<Self::ItemView>;

    /// The constants known after the assignment of `rhs` to `lhs`.
    spec fn visit_db(
        &self,
        lhs: Variable,
        rhs: Expression,
        cur: Loc,
        func: Loc,
        db: Map<Var, u64>,
    ) -> Map<Var, u64>;

    /// Applies the function to the assignment of `rhs` to `lhs`.
    fn visit(
        &self,
        lhs: &Variable,
        rhs: &Expression,
        cur_addr: &Loc,
        func_addr: &Loc,
        tmp_db: &mut TmpDb,
    ) -> (r: Vec<Self::Item>)
        requires
            old(tmp_db).wf(),
        ensures
            final(tmp_db).wf(),
            final(tmp_db)@ == self.visit_db(*lhs, *rhs, *cur_addr, *func_addr, old(tmp_db)@),
            r@.len() == self.visit_items(*lhs, *rhs, *cur_addr, *func_addr, old(tmp_db)@).len(),
            forall|k: int|
                0 <= k < r@.len() ==> Self::item_view(#[trigger] r@[k]) == self.visit_items(
                    *lhs,
                    *rhs,
                    *cur_addr,
                    *func_addr,
                    old(tmp_db)@,
                )[k] && Self::item_ok(Self::item_view(r@[k])),
    ;
}

/// Whether the items `r` have the contents `s`, each of them as it should be.
pub open spec fn items_match<V: MoveVisitor>(r: Seq<V::Item>, s: Seq<V::ItemView>) -> bool {
    &&& r.len() == s.len()
    &&& forall|k: int|
        0 <= k < r.len() ==> V::item_view(#[trigger] r[k]) == s[k] && V::item_ok(
            V::item_view(r[k]),
        )
}

/// What `f` yields on the assignments of `stmt`, in order, and the
/// constants known afterwards. The body of a loop is walked twice; the two
/// arms of a branch are walked one after the other.
pub open spec fn walk_spec<V: MoveVisitor>(
    f: V,
    stmt: Statement,
    cur: Loc,
    func: Loc,
    db: Map<Var, u64>,
) -> (Seq<V::ItemView>, Map<Var, u64>)
    decreases stmt,
{
    match stmt {
        Statement::Move { lhs, rhs } => (
            f.visit_items(lhs, rhs, cur, func, db),
            f.visit_db(lhs, rhs, cur, func, db),
        ),
        Statement::While { body, .. } => {
            let (a, db1) = walk_list(f, body@, cur, func, db);
            let (b, db2) = walk_list(f, body@, cur, func, db1);
            (a + b, db2)
        },
        Statement::IfThenElse { then_clause, else_clause, .. } => {
            let (a, db1) = walk_list(f, then_clause@, cur, func, db);
            let (b, db2) = walk_list(f, else_clause@, cur, func, db1);
            (a + b, db2)
        },
        _ => (Seq::empty(), db),
    }
}

/// What `f` yields on the assignments of `stmts`, in order, and the
/// constants known afterwards.
pub open spec fn walk_list<V: MoveVisitor>(
    f: V,
    stmts: Seq<Statement>,
    cur: Loc,
    func: Loc,
    db: Map<Var, u64>,
) -> (Seq<V::ItemView>, Map<Var, u64>)
    decreases stmts,
{
    if stmts.len() == 0 {
        (Seq::empty(), db)
    } else {
        let (a, db1) = walk_spec(f, stmts[0], cur, func, db);
        let (b, db2) = walk_list(f, stmts.drop_first(), cur, func, db1);
        (a + b, db2)
    }
}

/// Appends `sub` to `out`.
fn append_items<V: MoveVisitor>(
    out: &mut Vec<V::Item>,
    sub: Vec<V::Item>,
    Ghost(a): Ghost<Seq<V::ItemView>>,
    Ghost(b): Ghost<Seq<V::ItemView>>,
)
    requires
        items_match::<V>(old(out)@, a),
        items_match::<V>(sub@, b),
    ensures
        items_match::<V>(final(out)@, a + b),
{
    let mut sub = sub;
    let ghost x = out@;
    let ghost y = sub@;
    out.append(&mut sub);
    proof {
        let c = a + b;
        assert forall|k: int| 0 <= k < out@.len() implies V::item_view(#[trigger] out@[k]) == c[k]
            && V::item_ok(V::item_view(out@[k])) by {
            if k < x.len() {
                assert(out@[k] == x[k]);
            } else {
                assert(out@[k] == y[k - x.len()]);
            }
        }
    }
}

/// Applies `f` to the assignments of `stmts` from position `start` on.
pub fn walk_from<V: MoveVisitor>(
    stmts: &Vec<Statement>,
    start: usize,
    cur_addr: &Loc,
    func_addr: &Loc,
    f: &V,
    tmp_db: &mut TmpDb,
) -> (r: Vec<V::Item>)
    requires
        start <= stmts@.len(),
        old(tmp_db).wf(),
    ensures
        final(tmp_db).wf(),
        items_match::<V>(
            r@,
            walk_list(
                *f,
                stmts@.subrange(start as int, stmts@.len() as int),
                *cur_addr,
                *func_addr,
                old(tmp_db)@,
            ).0,
        ),
        final(tmp_db)@ == walk_list(
            *f,
            stmts@.subrange(start as int, stmts@.len() as int),
            *cur_addr,
            *func_addr,
            old(tmp_db)@,
        ).1,
    decreases stmts@, stmts@.len() - start,
{
    let ghost here = stmts@.subrange(start as int, stmts@.len() as int);
    if start == stmts.len() {
        return Vec::new();
    }
    proof {
        assert(here[0] == stmts@[start as int]);
        assert(here.drop_first() =~= stmts@.subrange(start + 1, stmts@.len() as int));
    }
    let ghost db0 = tmp_db@;
    let mut out = move_walk(&stmts[start], cur_addr, func_addr, f, tmp_db);
    let ghost db1 = tmp_db@;
    let rest = walk_from(stmts, start + 1, cur_addr, func_addr, f, tmp_db);
    append_items::<V>(
        &mut out,
        rest,
        Ghost(walk_spec(*f, stmts@[start as int], *cur_addr, *func_addr, db0).0),
        Ghost(walk_list(*f, here.drop_first(), *cur_addr, *func_addr, db1).0),
    );
    out
}

/// Applies `f` to the assignments of `stmt`, in order.
pub fn move_walk<V: MoveVisitor>(
    stmt: &Statement,
    cur_addr: &Loc,
    func_addr: &Loc,
    f: &V,
    tmp_db: &mut TmpDb,
) -> (r: Vec<V::Item>)
    requires
        old(tmp_db).wf(),
    ensures
        final(tmp_db).wf(),
        items_match::<V>(r@, walk_spec(*f, *stmt, *cur_addr, *func_addr, old(tmp_db)@).0),
        final(tmp_db)@ == walk_spec(*f, *stmt, *cur_addr, *func_addr, old(tmp_db)@).1,
    decreases *stmt,
{
    match stmt {
        Statement::Move { lhs, rhs } => f.visit(lhs, rhs, cur_addr, func_addr, tmp_db),
        Statement::While { body, .. } => {
            let ghost db0 = tmp_db@;
            assert(body@.subrange(0, body@.len() as int) =~= body@);
            let mut out = walk_from(body, 0, cur_addr, func_addr, f, tmp_db);
            let ghost db1 = tmp_db@;
            let again = walk_from(body, 0, cur_addr, func_addr, f, tmp_db);
            append_items::<V>(
                &mut out,
                again,
                Ghost(walk_list(*f, body@, *cur_addr, *func_addr, db0).0),
                Ghost(walk_list(*f, body@, *cur_addr, *func_addr, db1).0),
            );
            out
        },
        Statement::IfThenElse { then_clause, else_clause, .. } => {
            let ghost db0 = tmp_db@;
            assert(then_clause@.subrange(0, then_clause@.len() as int) =~= then_clause@);
            assert(else_clause@.subrange(0, else_clause@.len() as int) =~= else_clause@);
            let mut out = walk_from(then_clause, 0, cur_addr, func_addr, f, tmp_db);
            let ghost db1 = tmp_db@;
            let other = walk_from(else_clause, 0, cur_addr, func_addr, f, tmp_db);
            append_items::<V>(
                &mut out,
                other,
                Ghost(walk_list(*f, then_clause@, *cur_addr, *func_addr, db0).0),
                Ghost(walk_list(*f, else_clause@, *cur_addr, *func_addr, db1).0),
            );
            out
        },
        _ => Vec::new(),
    }
}

/// Which of the paths that an expression evaluates to are of interest.
#[derive(Clone, Copy, Debug, PartialEq, Eq, Structural)]
pub enum Pick {
    /// Every path.
    All,
    /// The addresses: the paths with one offset.
    Addresses,
    /// The paths that dereference more than once.
    Nested,
    /// The paths that dereference and do not start at a temporary.
    Reads,
}

impl Pick {
    /// Whether the path `v` is of interest.
    pub open spec fn picks(self, v: VarPathView) -> bool {
        match self {
            Pick::All => true,
            Pick::Addresses => v.offsets.len() == 1,
            Pick::Nested => v.offsets.len() > 2,
            Pick::Reads => !(v.base is Temp) && v.offsets.len() > 1,
        }
    }

    /// Whether the path `v` is of interest.
    pub fn test(self, v: &VarPath) -> (r: bool)
        ensures
            r == self.picks(v@),
    {
        match self {
            Pick::All => true,
            Pick::Addresses => v.derefs() == 1,
            Pick::Nested => v.derefs() > 2,
            Pick::Reads => !v.base.is_temp() && v.derefs() > 1,
        }
    }
}

/// The bases of the paths among `es` that `pick` picks, in order.
pub open spec fn picked_bases(es: Seq<EView>, pick: Pick) -> Seq<Var>
    decreases es.len(),
{
    if es.len() == 0 {
        Seq::empty()
    } else {
        match es.last() {
            EView::VP(v) => if pick.picks(v) {
                picked_bases(es.drop_last(), pick).push(v.base)
            } else {
                picked_bases(es.drop_last(), pick)
            },
            EView::Const(_) => picked_bases(es.drop_last(), pick),
        }
    }
}

/// The bases of the paths among `es` that `pick` picks, in order.
pub fn bases_of(es: &Vec<E>, pick: Pick) -> (r: Vec<Var>)
    ensures
        r@ == picked_bases(e_views(es@), pick),
{
    let ghost src = e_views(es@);
    let mut out: Vec<Var> = Vec::new();
    let mut i: usize = 0;
    while i < es.len()
        invariant
            i <= es@.len(),
            src == e_views(es@),
            out@ == picked_bases(src.subrange(0, i as int), pick),
        decreases es@.len() - i,
    {
        proof {
            assert(src.subrange(0, i + 1).drop_last() =~= src.subrange(0, i as int));
            assert(src.subrange(0, i + 1).last() == es@[i as int]@);
        }
        match &es[i] {
            E::VP(v) => {
                if pick.test(v) {
                    out.push(v.base.copy());
                }
            },
            E::Const(_) => {},
        }
        i += 1;
    }
    assert(src.subrange(0, i as int) =~= src);
    out
}

/// The paths among `es`, in order.
pub open spec fn paths_of(es: Seq<EView>) -> Seq<VarPathView>
    decreases es.len(),
{
    if es.len() == 0 {
        Seq::empty()
    } else {
        match es.last() {
            EView::VP(v) => paths_of(es.drop_last()).push(v),
            EView::Const(_) => paths_of(es.drop_last()),
        }
    }
}

/// The constants among `es`, in order.
pub open spec fn consts_of(es: Seq<EView>) -> Seq<u64>
    decreases es.len(),
{
    if es.len() == 0 {
        Seq::empty()
    } else {
        match es.last() {
            EView::VP(_) => consts_of(es.drop_last()),
            EView::Const(k) => consts_of(es.drop_last()).push(k),
        }
    }
}

/// The paths and the constants among `es`.
fn split_es(es: &Vec<E>) -> (r: (Vec<VarPath>, Vec<u64>))
    requires
        es_ok(e_views(es@)),
    ensures
        path_views(r.0@) == paths_of(e_views(es@)),
        r.1@ == consts_of(e_views(es@)),
        forall|k: int| 0 <= k < r.0@.len() ==> (#[trigger] r.0@[k]).wf(),
{
    let ghost src = e_views(es@);
    let mut paths: Vec<VarPath> = Vec::new();
    let mut ks: Vec<u64> = Vec::new();
    let mut i: usize = 0;
    while i < es.len()
        invariant
            i <= es@.len(),
            src == e_views(es@),
            es_ok(src),
            paths@.len() == paths_of(src.subrange(0, i as int)).len(),
            forall|k: int|
                0 <= k < paths@.len() ==> (#[trigger] paths@[k])@ == paths_of(
                    src.subrange(0, i as int),
                )[k] && paths@[k].wf(),
            ks@ == consts_of(src.subrange(0, i as int)),
        decreases es@.len() - i,
    {
        proof {
            assert(src.subrange(0, i + 1).drop_last() =~= src.subrange(0, i as int));
            assert(src.subrange(0, i + 1).last() == es@[i as int]@);
            assert(src[i as int] == es@[i as int]@);
        }
        match &es[i] {
            E::VP(v) => {
                paths.push(v.dup());
            },
            E::Const(k) => {
                ks.push(*k);
            },
        }
        i += 1;
    }
    proof {
        assert(src.subrange(0, i as int) =~= src);
        assert(path_views(paths@) =~= paths_of(src));
    }
    (paths, ks)
}

/// The constraints of a store of the values `rs` through the addresses
/// `ls`: for each address that is a path, one constraint on what it points
/// to, with the paths among `rs` on the right; none where there is no path
/// among `rs`.
pub open spec fn store_all(ls: Seq<EView>, rs: Seq<EView>) -> Seq<ConstraintView>
    decreases ls.len(),
{
    if ls.len() == 0 {
        Seq::empty()
    } else {
        match ls.last() {
            EView::VP(l) => if paths_of(rs).len() > 0 {
                store_all(ls.drop_last(), rs).push(
                    ConstraintView { lhs: l.deref(), rhss: paths_of(rs) },
                )
            } else {
                store_all(ls.drop_last(), rs)
            },
            EView::Const(_) => store_all(ls.drop_last(), rs),
        }
    }
}

/// The variable that an assignment to `lhs` defines, if the analysis
/// tracks it: the temporary of its serial number, or the register of its
/// name other than the stack pointer.
pub open spec fn defined_var(lhs: Variable) -> Option<Var> {
    if lhs.tmp {
        match temp_serial(lhs.name@) {
            Some(serial) => Some(Var::Temp { serial }),
            None => None,
        }
    } else if lhs.name@ == "RSP"@ {
        None
    } else {
        match reg_of_name(lhs.name@) {
            Some(register) => Some(Var::Register { register }),
            None => None,
        }
    }
}

/// The variable that an assignment to `lhs` defines, if the analysis tracks it.
pub fn var_defined(lhs: &Variable) -> (r: Option<Var>)
    ensures
        r == defined_var(*lhs),
{
    let name = lhs.name.as_str();
    if lhs.tmp {
        match parse_temp_serial(name) {
            Some(serial) => Some(Var::Temp { serial }),
            None => None,
        }
    } else if str_eq(name, "RSP") {
        None
    } else {
        match Reg::from_name(name) {
            Some(register) => Some(Var::Register { register }),
            None => None,
        }
    }
}

/// The function that yields the constraints of an assignment.
pub struct ExtractMove;

/// The constraints of the assignment of `rhs` to `lhs`. A store yields the
/// constraints of `store_all`. A flag yields nothing. Another variable,
/// where it is tracked, is made to hold what the paths of `rhs` name; where
/// `rhs` has no path but a constant and the variable is no temporary, it is
/// made unknown.
pub open spec fn move_constraints(
    lhs: Variable,
    rhs: Expression,
    func: Loc,
    db: Map<Var, u64>,
) -> Seq<ConstraintView> {
    match lhs.type_ {
        Type::Memory { .. } => match rhs {
            Expression::Store { index, value, .. } => store_all(
                extract_spec(*index, func, db),
                extract_spec(*value, func, db),
            ),
            _ => Seq::empty(),
        },
        Type::Immediate(w) => if w == 1 {
            Seq::empty()
        } else {
            match defined_var(lhs) {
                Some(lv) => {
                    let es = extract_spec(rhs, func, db);
                    if paths_of(es).len() == 0 {
                        if consts_of(es).len() > 0 && !lhs.tmp {
                            seq![ConstraintView { lhs: VarPathView::var(lv), rhss: Seq::empty() }]
                        } else {
                            Seq::empty()
                        }
                    } else {
                        seq![ConstraintView { lhs: VarPathView::var(lv), rhss: paths_of(es) }]
                    }
                },
                None => Seq::empty(),
            }
        },
    }
}

/// The constants known after the assignment of `rhs` to `lhs`: a tracked
/// variable that receives one constant and no path is known to hold it;
/// any other assignment to it makes it unknown.
pub open spec fn move_db(lhs: Variable, rhs: Expression, func: Loc, db: Map<Var, u64>) -> Map<
    Var,
    u64,
> {
    match lhs.type_ {
        Type::Memory { .. } => db,
        Type::Immediate(w) => if w == 1 {
            db
        } else {
            match defined_var(lhs) {
                Some(lv) => {
                    let es = extract_spec(rhs, func, db);
                    if consts_of(es).len() == 1 && paths_of(es).len() == 0 {
                        db.insert(lv, consts_of(es)[0])
                    } else {
                        db.remove(lv)
                    }
                },
                None => db,
            }
        },
    }
}

/// The constraints of a store of the values `rs` through the addresses `ls`.
fn store_each(ls: &Vec<E>, rs: &Vec<E>) -> (r: Vec<Constraint>)
    requires
        es_ok(e_views(ls@)),
        es_ok(e_views(rs@)),
    ensures
        r@.len() == store_all(e_views(ls@), e_views(rs@)).len(),
        forall|k: int|
            0 <= k < r@.len() ==> (#[trigger] r@[k])@ == store_all(e_views(ls@), e_views(rs@))[k]
                && constraint_ok(r@[k]@),
{
    let ghost l = e_views(ls@);
    let ghost rv = e_views(rs@);
    let (paths, _ks) = split_es(rs);
    let mut out: Vec<Constraint> = Vec::new();
    let mut i: usize = 0;
    while i < ls.len()
        invariant
            i <= ls@.len(),
            l == e_views(ls@),
            rv == e_views(rs@),
            es_ok(l),
            path_views(paths@) == paths_of(rv),
            forall|k: int| 0 <= k < paths@.len() ==> (#[trigger] paths@[k]).wf(),
            out@.len() == store_all(l.subrange(0, i as int), rv).len(),
            forall|k: int|
                0 <= k < out@.len() ==> (#[trigger] out@[k])@ == store_all(
                    l.subrange(0, i as int),
                    rv,
                )[k] && constraint_ok(out@[k]@),
        decreases ls@.len() - i,
    {
        proof {
            assert(l.subrange(0, i + 1).drop_last() =~= l.subrange(0, i as int));
            assert(l.subrange(0, i + 1).last() == ls@[i as int]@);
        }
        match &ls[i] {
            E::VP(lhs) => {
                if paths.len() > 0 {
                    let rhss = crate::constraints::copy_paths(&paths);
                    let c = Constraint { lhs: lhs.deref(), rhss };
                    let ghost prev = out@;
                    proof {
                        assert(l[i as int] == ls@[i as int]@);
                        assert(lhs@.offsets.len() >= 1);
                        assert(c@.lhs.offsets.last() == Some(0u64));
                        assert(c@.rhss == paths_of(rv));
                        assert forall|k: int| 0 <= k < c@.rhss.len() implies (
                        #[trigger] c@.rhss[k]).offsets.len() >= 1 by {
                            assert(c@.rhss[k] == path_views(paths@)[k]);
                            assert(paths@[k].wf());
                        }
                        assert(constraint_ok(c@));
                    }
                    out.push(c);
                    proof {
                        let target = store_all(l.subrange(0, i + 1), rv);
                        assert forall|k: int| 0 <= k < out@.len() implies (#[trigger] out@[k])@
                            == target[k] && constraint_ok(out@[k]@) by {
                            if k < prev.len() {
                                assert(out@[k] == prev[k]);
                            }
                        }
                    }
                }
            },
            E::Const(_) => {},
        }
        i += 1;
    }
    assert(l.subrange(0, i as int) =~= l);
    out
}

impl MoveVisitor for ExtractMove {
    type Item = Constraint;

    type ItemView = ConstraintView;

    open spec fn item_view(item: Constraint) -> ConstraintView {
        item@
    }

    open spec fn item_ok(item: ConstraintView) -> bool {
        constraint_ok(item)
    }

    open spec fn visit_items(
        &self,
        lhs: Variable,
        rhs: Expression,
        cur: Loc,
        func: Loc,
        db: Map<Var, u64>,
    ) -> Seq<ConstraintView> {
        move_constraints(lhs, rhs, func, db)
    }

    open spec fn visit_db(
        &self,
        lhs: Variable,
        rhs: Expression,
        cur: Loc,
        func: Loc,
        db: Map<Var, u64>,
    ) -> Map<Var, u64> {
        move_db(lhs, rhs, func, db)
    }

    fn visit(
        &self,
        lhs: &Variable,
        rhs: &Expression,
        cur_addr: &Loc,
        func_addr: &Loc,
        tmp_db: &mut TmpDb,
    ) -> (r: Vec<Constraint>) {
        extract_move(lhs, rhs, cur_addr, func_addr, tmp_db)
    }
}

/// The constraints of the assignment of `rhs` to `lhs`.
pub fn extract_move(
    lhs: &Variable,
    rhs: &Expression,
    cur_addr: &Loc,
    func_addr: &Loc,
    tmp_db: &mut TmpDb,
) -> (r: Vec<Constraint>)
    requires
        old(tmp_db).wf(),
    ensures
        final(tmp_db).wf(),
        final(tmp_db)@ == move_db(*lhs, *rhs, *func_addr, old(tmp_db)@),
        r@.len() == move_constraints(*lhs, *rhs, *func_addr, old(tmp_db)@).len(),
        forall|k: int|
            0 <= k < r@.len() ==> (#[trigger] r@[k])@ == move_constraints(
                *lhs,
                *rhs,
                *func_addr,
                old(tmp_db)@,
            )[k] && constraint_ok(r@[k]@),
{
    match lhs.type_ {
        Type::Memory { .. } => match rhs {
            Expression::Store { index, value, .. } => {
                let lhs_vars = extract_expr(index, cur_addr, func_addr, tmp_db);
                let rhs_vars = extract_expr(value, cur_addr, func_addr, tmp_db);
                store_each(&lhs_vars, &rhs_vars)
            },
            _ => Vec::new(),
        },
        Type::Immediate(w) => {
            if w == 1 {
                return Vec::new();
            }
            let lv = match var_defined(lhs) {
                Some(lv) => lv,
                None => {
                    return Vec::new();
                },
            };
            let es = extract_expr(rhs, cur_addr, func_addr, tmp_db);
            let (rhs_exprs, ks) = split_es(&es);
            if ks.len() == 1 && rhs_exprs.len() == 0 {
                tmp_db.insert(lv.copy(), ks[0]);
            } else {
                tmp_db.remove(&lv);
            }
            let mut out: Vec<Constraint> = Vec::new();
            if rhs_exprs.len() == 0 {
                if ks.len() > 0 && !lhs.tmp {
                    let c = Constraint::clobber(lv);
                    assert(c@.rhss =~= Seq::<VarPathView>::empty());
                    out.push(c);
                }
            } else {
                let c = Constraint { lhs: VarPath::var(lv), rhss: rhs_exprs };
                proof {
                    assert forall|k: int| 0 <= k < c@.rhss.len() implies (#[trigger] c@.rhss[k]).offsets.len()
                        >= 1 by {
                        assert(c@.rhss[k] == rhs_exprs@[k]@);
                        assert(rhs_exprs@[k].wf());
                    }
                }
                out.push(c);
            }
            out
        },
    }
}

/// The function that yields the variables an assignment dereferences.
pub struct ExtractMoveVar;

/// The variables that the assignment of `rhs` to `lhs` dereferences: for a
/// store, the bases of the addresses and of the nested paths stored; for
/// another assignment the bases of the nested paths of `rhs`.
pub open spec fn move_vars(lhs: Variable, rhs: Expression, func: Loc, db: Map<Var, u64>) -> Seq<Var> {
    match lhs.type_ {
        Type::Memory { .. } => match rhs {
            Expression::Store { index, value, .. } => picked_bases(
                extract_spec(*index, func, db),
                Pick::All,
            ) + picked_bases(extract_spec(*value, func, db), Pick::Nested),
            _ => Seq::empty(),
        },
        Type::Immediate(_) => picked_bases(extract_spec(rhs, func, db), Pick::Nested),
    }
}

/// The variables that the assignment of `rhs` to `lhs` dereferences.
pub fn extract_move_var(
    lhs: &Variable,
    rhs: &Expression,
    cur_addr: &Loc,
    func_addr: &Loc,
    tmp_db: &mut TmpDb,
) -> (r: Vec<Var>)
    requires
        old(tmp_db).wf(),
    ensures
        *final(tmp_db) == *old(tmp_db),
        r@ == move_vars(*lhs, *rhs, *func_addr, old(tmp_db)@),
{
    match lhs.type_ {
        Type::Memory { .. } => match rhs {
            Expression::Store { index, value, .. } => {
                let lhs_vars = extract_expr(index, cur_addr, func_addr, tmp_db);
                let rhs_vars = extract_expr(value, cur_addr, func_addr, tmp_db);
                let mut out = bases_of(&lhs_vars, Pick::All);
                let mut more = bases_of(&rhs_vars, Pick::Nested);
                out.append(&mut more);
                out
            },
            _ => Vec::new(),
        },
        Type::Immediate(_) => {
            let es = extract_expr(rhs, cur_addr, func_addr, tmp_db);
            bases_of(&es, Pick::Nested)
        },
    }
}

impl MoveVisitor for ExtractMoveVar {
    type Item = Var;

    type ItemView = Var;

    open spec fn item_view(item: Var) -> Var {
        item
    }

    open spec fn item_ok(item: Var) -> bool {
        true
    }

    open spec fn visit_items(
        &self,
        lhs: Variable,
        rhs: Expression,
        cur: Loc,
        func: Loc,
        db: Map<Var, u64>,
    ) -> Seq<Var> {
        move_vars(lhs, rhs, func, db)
    }

    open spec fn visit_db(
        &self,
        lhs: Variable,
        rhs: Expression,
        cur: Loc,
        func: Loc,
        db: Map<Var, u64>,
    ) -> Map<Var, u64> {
        db
    }

    fn visit(
        &self,
        lhs: &Variable,
        rhs: &Expression,
        cur_addr: &Loc,
        func_addr: &Loc,
        tmp_db: &mut TmpDb,
    ) -> (r: Vec<Var>) {
        extract_move_var(lhs, rhs, cur_addr, func_addr, tmp_db)
    }
}

/// The constraints of an instruction with the semantics `sema` in the
/// function entered at `func_loc`.
pub fn extract_constraints(sema: &Vec<Statement>, cur: &Loc, func_loc: &Loc) -> (r: Vec<Constraint>)
    ensures
        items_match::<ExtractMove>(
            r@,
            walk_list(ExtractMove, sema@, *cur, *func_loc, Map::empty()).0,
        ),
        forall|k: int| 0 <= k < r@.len() ==> constraint_ok(#[trigger] r@[k]@),
{
    let mut tmp_db: TmpDb = SortedMap::new();
    assert(sema@.subrange(0, sema@.len() as int) =~= sema@);
    walk_from(sema, 0, cur, func_loc, &ExtractMove, &mut tmp_db)
}

/// The variables that an instruction with the semantics `sema` dereferences.
pub fn extract_var_use(sema: &Vec<Statement>, cur: &Loc, func_loc: &Loc) -> (r: Vec<Var>)
    ensures
        r@ == walk_list(ExtractMoveVar, sema@, *cur, *func_loc, Map::empty()).0,
{
    let mut tmp_db: TmpDb = SortedMap::new();
    assert(sema@.subrange(0, sema@.len() as int) =~= sema@);
    let out = walk_from(sema, 0, cur, func_loc, &ExtractMoveVar, &mut tmp_db);
    assert(out@ =~= walk_list(ExtractMoveVar, sema@, *cur, *func_loc, Map::empty()).0);
    out
}

} // verus!
