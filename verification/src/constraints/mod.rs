//! Constraints: what one instruction does to the points-to state, as
//! assignments between access paths.

use vstd::prelude::*;
use crate::load::Loc;
use crate::order::{Rank, StrictOrder};
use crate::regs::Reg;
use crate::sorted_set::{ascending, lemma_ascending_insert, members};
use crate::var::{Var, temp_serial, var_lt};
use crate::var_ref::offset_lt;

pub mod datalog;
pub mod generation;

verus! {

/// The mathematical content of a `VarPath`.
pub struct VarPathView {
    pub base: Var,
    pub offsets: Seq<Option<u64>>,
}

/// The mathematical content of a `Constraint`.
pub struct ConstraintView {
    pub lhs: VarPathView,
    pub rhss: Seq<VarPathView>,
}

/// An access path: a base variable and one offset for each dereference. A
/// path with one offset is an address; the last offset is the one added to
/// the value reached.
#[derive(Debug, PartialEq, Eq, PartialOrd, Ord, Hash)]
pub struct VarPath {
    pub base: Var,
    pub offsets: Vec<Option<u64>>,
}

/// The effect of one assignment: what `lhs` names may from now on hold what
/// any of `rhss` names. A constraint without right-hand sides makes the base
/// of `lhs` unknown.
#[derive(Debug, PartialEq, Eq, PartialOrd, Ord, Hash)]
pub struct Constraint {
    pub lhs: VarPath,
    pub rhss: Vec<VarPath>,
}

impl View for VarPath {
    type V = VarPathView;

    open spec fn view(&self) -> VarPathView {
        VarPathView { base: self.base, offsets: self.offsets@ }
    }
}

/// The contents of the paths `s`.
pub open spec fn path_views(s: Seq<VarPath>) -> Seq<VarPathView> {
    s.map_values(|p: VarPath| p@)
}

impl View for Constraint {
    type V = ConstraintView;

    open spec fn view(&self) -> ConstraintView {
        ConstraintView { lhs: self.lhs@, rhss: path_views(self.rhss@) }
    }
}

/// The contents of the constraints `s`.
pub open spec fn constraint_views(s: Seq<Constraint>) -> Seq<ConstraintView> {
    s.map_values(|c: Constraint| c@)
}

/// The offset `base` moved by `off`, wrapping round; an unknown offset stays unknown.
pub open spec fn shifted(base: Option<u64>, off: u64) -> Option<u64> {
    match base {
        Some(b) => Some(b.wrapping_add(off)),
        None => None,
    }
}

/// Moves the offset `base` by `off`.
pub fn off_plus(base: &mut Option<u64>, off: u64)
    ensures
        *final(base) == shifted(*old(base), off),
{
    let moved = match *base {
        Some(b) => Some(b.wrapping_add(off)),
        None => None,
    };
    *base = moved;
}

/// The lexicographic order on offset lists; a proper prefix comes first.
pub open spec fn offsets_lt(a: Seq<Option<u64>>, b: Seq<Option<u64>>) -> bool
    decreases a.len(),
{
    if b.len() == 0 {
        false
    } else if a.len() == 0 {
        true
    } else if offset_lt(a[0], b[0]) {
        true
    } else if a[0] == b[0] {
        offsets_lt(a.drop_first(), b.drop_first())
    } else {
        false
    }
}

proof fn lemma_offsets_lt_irreflexive(a: Seq<Option<u64>>)
    ensures
        !offsets_lt(a, a),
    decreases a.len(),
{
    if a.len() > 0 {
        lemma_offsets_lt_irreflexive(a.drop_first());
    }
}

proof fn lemma_offsets_lt_transitive(
    a: Seq<Option<u64>>,
    b: Seq<Option<u64>>,
    c: Seq<Option<u64>>,
)
    requires
        offsets_lt(a, b),
        offsets_lt(b, c),
    ensures
        offsets_lt(a, c),
    decreases a.len(),
{
    if a.len() > 0 && b.len() > 0 && c.len() > 0 {
        if a[0] == b[0] && b[0] == c[0] {
            lemma_offsets_lt_transitive(a.drop_first(), b.drop_first(), c.drop_first());
        }
    }
}

proof fn lemma_offsets_lt_total(a: Seq<Option<u64>>, b: Seq<Option<u64>>)
    ensures
        offsets_lt(a, b) || offsets_lt(b, a) || a == b,
    decreases a.len(),
{
    if a.len() == 0 || b.len() == 0 {
        if a.len() == 0 && b.len() == 0 {
            assert(a =~= b);
        }
    } else if a[0] == b[0] {
        lemma_offsets_lt_total(a.drop_first(), b.drop_first());
        if a.drop_first() == b.drop_first() {
            assert(a =~= seq![a[0]] + a.drop_first());
            assert(b =~= seq![b[0]] + b.drop_first());
        }
    }
}

/// The strict order on paths: by base, then by the offsets.
pub open spec fn path_lt(a: VarPathView, b: VarPathView) -> bool {
    var_lt(a.base, b.base) || (a.base == b.base && offsets_lt(a.offsets, b.offsets))
}

impl StrictOrder for VarPathView {
    open spec fn lt(self, other: VarPathView) -> bool {
        path_lt(self, other)
    }

    proof fn lt_irreflexive(x: VarPathView) {
        assert(x.lt(x) == path_lt(x, x));
        Var::lt_irreflexive(x.base);
        lemma_offsets_lt_irreflexive(x.offsets);
    }

    proof fn lt_transitive(x: VarPathView, y: VarPathView, z: VarPathView) {
        assert(x.lt(y) == path_lt(x, y) && y.lt(z) == path_lt(y, z) && x.lt(z) == path_lt(x, z));
        if var_lt(x.base, y.base) && var_lt(y.base, z.base) {
            Var::lt_transitive(x.base, y.base, z.base);
        }
        if offsets_lt(x.offsets, y.offsets) && offsets_lt(y.offsets, z.offsets) {
            lemma_offsets_lt_transitive(x.offsets, y.offsets, z.offsets);
        }
    }

    proof fn lt_total(x: VarPathView, y: VarPathView) {
        assert(x.lt(y) == path_lt(x, y) && y.lt(x) == path_lt(y, x));
        Var::lt_total(x.base, y.base);
        lemma_offsets_lt_total(x.offsets, y.offsets);
    }
}

/// Places the offset list `a` against `b` in the order `offsets_lt`.
pub fn rank_offsets(a: &Vec<Option<u64>>, b: &Vec<Option<u64>>) -> (r: Rank)
    ensures
        (r == Rank::Below) == offsets_lt(a@, b@),
        (r == Rank::Same) == (a@ == b@),
        (r == Rank::Above) == offsets_lt(b@, a@),
{
    let mut i: usize = 0;
    proof {
        assert(a@.subrange(0, a@.len() as int) =~= a@);
        assert(b@.subrange(0, b@.len() as int) =~= b@);
    }
    while i < a.len() && i < b.len()
        invariant
            i <= a@.len(),
            i <= b@.len(),
            forall|j: int| 0 <= j < i ==> a@[j] == b@[j],
            offsets_lt(a@, b@) == offsets_lt(
                a@.subrange(i as int, a@.len() as int),
                b@.subrange(i as int, b@.len() as int),
            ),
            offsets_lt(b@, a@) == offsets_lt(
                b@.subrange(i as int, b@.len() as int),
                a@.subrange(i as int, a@.len() as int),
            ),
        decreases a@.len() - i,
    {
        let ghost ra = a@.subrange(i as int, a@.len() as int);
        let ghost rb = b@.subrange(i as int, b@.len() as int);
        proof {
            assert(ra[0] == a@[i as int] && rb[0] == b@[i as int]);
            assert(ra.drop_first() =~= a@.subrange(i + 1, a@.len() as int));
            assert(rb.drop_first() =~= b@.subrange(i + 1, b@.len() as int));
        }
        match (a[i], b[i]) {
            (None, None) => {},
            (None, Some(_)) => {
                return Rank::Below;
            },
            (Some(_), None) => {
                return Rank::Above;
            },
            (Some(x), Some(y)) => {
                if x < y {
                    return Rank::Below;
                } else if x > y {
                    return Rank::Above;
                }
            },
        }
        i += 1;
    }
    proof {
        let ra = a@.subrange(i as int, a@.len() as int);
        let rb = b@.subrange(i as int, b@.len() as int);
        assert(ra.len() == a@.len() - i && rb.len() == b@.len() - i);
        if a@.len() == b@.len() {
            assert(a@ =~= b@);
        }
    }
    if a.len() < b.len() {
        Rank::Below
    } else if a.len() > b.len() {
        Rank::Above
    } else {
        Rank::Same
    }
}

/// An exact copy of the offset list `v`.
pub fn copy_offsets(v: &Vec<Option<u64>>) -> (r: Vec<Option<u64>>)
    ensures
        r@ == v@,
{
    let mut out: Vec<Option<u64>> = Vec::new();
    let mut i: usize = 0;
    while i < v.len()
        invariant
            i <= v@.len(),
            out@ == v@.subrange(0, i as int),
        decreases v@.len() - i,
    {
        out.push(v[i]);
        assert(out@ =~= v@.subrange(0, i + 1));
        i += 1;
    }
    assert(v@.subrange(0, i as int) =~= v@);
    out
}

impl VarPathView {
    /// The path to what the variable `var` holds.
    pub open spec fn var(var: Var) -> VarPathView {
        VarPathView { base: var, offsets: seq![Some(0u64), Some(0u64)] }
    }

    /// The path that is the address of `var`.
    pub open spec fn addr(var: Var) -> VarPathView {
        VarPathView { base: var, offsets: seq![Some(0u64)] }
    }

    /// The path with its last offset moved by `off`.
    pub open spec fn plus(self, off: u64) -> VarPathView {
        VarPathView {
            base: self.base,
            offsets: self.offsets.update(
                self.offsets.len() - 1,
                shifted(self.offsets.last(), off),
            ),
        }
    }

    /// The path with its last offset unknown.
    pub open spec fn unknown(self) -> VarPathView {
        VarPathView { base: self.base, offsets: self.offsets.update(self.offsets.len() - 1, None) }
    }

    /// The path to what this path's value points to.
    pub open spec fn deref(self) -> VarPathView {
        VarPathView { base: self.base, offsets: self.offsets.push(Some(0u64)) }
    }
}

impl VarPath {
    /// The path has at least one offset.
    pub open spec fn wf(&self) -> bool {
        self.offsets@.len() >= 1
    }

    /// The path to what the variable `var` holds.
    pub fn var(var: Var) -> (r: VarPath)
        ensures
            r@ == VarPathView::var(var),
            r.wf(),
    {
        let mut offsets: Vec<Option<u64>> = Vec::new();
        offsets.push(Some(0));
        offsets.push(Some(0));
        assert(offsets@ =~= seq![Some(0u64), Some(0u64)]);
        VarPath { base: var, offsets }
    }

    /// The path to what the register `reg` holds.
    pub fn reg(reg: &Reg) -> (r: VarPath)
        ensures
            r@ == VarPathView::var(Var::Register { register: *reg }),
            r.wf(),
    {
        VarPath::var(Var::Register { register: *reg })
    }

    /// The path to what the temporary called `s` holds.
    pub fn temp(s: &str) -> (r: VarPath)
        requires
            temp_serial(s@) is Some,
        ensures
            r@ == VarPathView::var(Var::Temp { serial: temp_serial(s@).unwrap() }),
            r.wf(),
    {
        VarPath::var(Var::temp(s))
    }

    /// The path that is the address of `var`.
    pub fn addr(var: Var) -> (r: VarPath)
        ensures
            r@ == VarPathView::addr(var),
            r.wf(),
    {
        let mut offsets: Vec<Option<u64>> = Vec::new();
        offsets.push(Some(0));
        assert(offsets@ =~= seq![Some(0u64)]);
        VarPath { base: var, offsets }
    }

    /// The path that is the address of the slot at `offset` in the frame of
    /// the function entered at `func_addr`.
    pub fn stack_addr(func_addr: &Loc, offset: usize) -> (r: VarPath)
        ensures
            r@ == VarPathView::addr(Var::StackSlot { func_addr: *func_addr, offset }),
            r.wf(),
    {
        VarPath::addr(Var::StackSlot { func_addr: func_addr.copy(), offset })
    }

    /// An exact copy of the path.
    pub fn dup(&self) -> (r: VarPath)
        ensures
            r@ == self@,
    {
        VarPath { base: self.base.copy(), offsets: copy_offsets(&self.offsets) }
    }

    /// The path with its last offset moved by `off`.
    pub fn plus(&self, off: u64) -> (r: VarPath)
        requires
            self.wf(),
        ensures
            r@ == self@.plus(off),
            r.wf(),
    {
        let mut out = self.dup();
        let n = out.offsets.len();
        let mut last = out.offsets[n - 1];
        off_plus(&mut last, off);
        out.offsets.set(n - 1, last);
        out
    }

    /// The path with its last offset unknown.
    pub fn unknown(&self) -> (r: VarPath)
        requires
            self.wf(),
        ensures
            r@ == self@.unknown(),
            r.wf(),
    {
        let mut out = self.dup();
        let n = out.offsets.len();
        out.offsets.set(n - 1, None);
        out
    }

    /// The number of offsets: one more than the number of dereferences.
    pub fn derefs(&self) -> (n: usize)
        ensures
            n == self@.offsets.len(),
    {
        self.offsets.len()
    }

    /// The path to what this path's value points to.
    pub fn deref(&self) -> (r: VarPath)
        ensures
            r@ == self@.deref(),
            r.wf(),
    {
        let mut out = self.dup();
        out.offsets.push(Some(0));
        out
    }

    /// Places `self` against `other` in the order `path_lt`.
    pub fn rank(&self, other: &VarPath) -> (r: Rank)
        ensures
            (r == Rank::Below) == path_lt(self@, other@),
            (r == Rank::Same) == (self@ == other@),
            (r == Rank::Above) == path_lt(other@, self@),
    {
        proof {
            VarPathView::lt_irreflexive(self@);
            if path_lt(self@, other@) && path_lt(other@, self@) {
                VarPathView::lt_transitive(self@, other@, self@);
            }
            Var::lt_irreflexive(self.base);
        }
        match self.base.rank(&other.base) {
            Rank::Same => rank_offsets(&self.offsets, &other.offsets),
            r => r,
        }
    }
}

impl Clone for VarPath {
    fn clone(&self) -> (r: VarPath)
        ensures
            r@ == self@,
    {
        self.dup()
    }
}

/// An exact copy of the paths `v`.
pub fn copy_paths(v: &Vec<VarPath>) -> (r: Vec<VarPath>)
    ensures
        path_views(r@) == path_views(v@),
{
    let mut out: Vec<VarPath> = Vec::new();
    let mut i: usize = 0;
    while i < v.len()
        invariant
            i <= v@.len(),
            out@.len() == i,
            forall|j: int| 0 <= j < i ==> (#[trigger] out@[j])@ == v@[j]@,
        decreases v@.len() - i,
    {
        out.push(v[i].dup());
        i += 1;
    }
    assert(path_views(out@) =~= path_views(v@));
    out
}

/// Puts `p` into the ascending list `paths`, unless a path with its content
/// is there already.
pub fn insert_path(paths: &mut Vec<VarPath>, p: VarPath)
    requires
        ascending(path_views(old(paths)@)),
    ensures
        ascending(path_views(final(paths)@)),
        members(path_views(final(paths)@)) == members(path_views(old(paths)@)).insert(p@),
{
    let ghost before = path_views(paths@);
    let mut i: usize = 0;
    while i < paths.len()
        invariant
            i <= paths@.len(),
            *paths == *old(paths),
            before == path_views(paths@),
            ascending(before),
            forall|j: int| 0 <= j < i ==> (#[trigger] before[j]).lt(p@),
        decreases paths@.len() - i,
    {
        match paths[i].rank(&p) {
            Rank::Below => {
                assert(before[i as int] == paths@[i as int]@);
            },
            Rank::Same => {
                assert(before[i as int] == p@);
                assert(before.contains(p@));
                assert(members(before) =~= members(before).insert(p@));
                return;
            },
            Rank::Above => {
                proof {
                    assert(before[i as int] == paths@[i as int]@);
                    assert(p@.lt(before[i as int]));
                    lemma_ascending_insert(before, i as int, p@);
                }
                paths.insert(i, p);
                assert(path_views(paths@) =~= before.insert(i as int, p@));
                return;
            },
        }
        i += 1;
    }
    proof {
        lemma_ascending_insert(before, i as int, p@);
    }
    paths.push(p);
    assert(path_views(paths@) =~= before.insert(i as int, p@));
}

impl Constraint {
    /// Whether the base of some path of the constraint is bound to a
    /// location that carries call-stack context.
    pub open spec fn spec_has_stacked(c: ConstraintView) -> bool {
        stacked_var(c.lhs.base) || exists|k: int|
            0 <= k < c.rhss.len() && stacked_var(#[trigger] c.rhss[k].base)
    }

    /// Whether the base of some path of the constraint is bound to a
    /// location that carries call-stack context.
    pub fn has_stacked(&self) -> (r: bool)
        ensures
            r == Self::spec_has_stacked(self@),
    {
        if self.lhs.base.is_stacked() {
            return true;
        }
        let mut k: usize = 0;
        while k < self.rhss.len()
            invariant
                k <= self.rhss@.len(),
                forall|j: int| 0 <= j < k ==> !stacked_var(#[trigger] self@.rhss[j].base),
            decreases self.rhss@.len() - k,
        {
            if self.rhss[k].base.is_stacked() {
                assert(stacked_var(self@.rhss[k as int].base));
                return true;
            }
            k += 1;
        }
        false
    }

    /// The constraint that makes `v` unknown.
    pub fn clobber(v: Var) -> (r: Constraint)
        ensures
            r@.lhs == VarPathView::var(v),
            r@.rhss.len() == 0,
    {
        Constraint { lhs: VarPath::var(v), rhss: Vec::new() }
    }

    /// An exact copy of the constraint.
    pub fn dup(&self) -> (r: Constraint)
        ensures
            r@ == self@,
    {
        Constraint { lhs: self.lhs.dup(), rhss: copy_paths(&self.rhss) }
    }
}

impl Clone for Constraint {
    fn clone(&self) -> (r: Constraint)
        ensures
            r@ == self@,
    {
        self.dup()
    }
}

/// Whether `v` is bound to a location that carries call-stack context.
pub open spec fn stacked_var(v: Var) -> bool {
    match v.spec_site() {
        Some(l) => !(l.stack is NoStack),
        None => false,
    }
}

} // verus!
