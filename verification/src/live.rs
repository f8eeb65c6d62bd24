//! Liveness: which variables an instruction defines and uses, and the
//! region synthesised for arguments that are live but nowhere defined.

use vstd::prelude::*;
use crate::bil::{Expression, Type, Variable};
use crate::constraints::generation::{
    MoveVisitor,
    Pick,
    TmpDb,
    bases_of,
    extract_expr,
    extract_spec,
    picked_bases,
    walk_from,
    walk_list,
};
use crate::datalog::{
    LiveCallDefsIn,
    LiveCallDefsOut,
    LiveDefinedIn,
    LiveDefinedOut,
    LiveDropFrameIn,
    LiveDropFrameOut,
    LiveDropStackIn,
    LiveDropStackOut,
    LiveEntryDefinedPromoteIn,
    LiveEntryDefinedPromoteOut,
    LiveNotDefinedIn,
    LiveNotDefinedOut,
    LiveUndefLiveIn,
    LiveUndefLiveOut,
    LivePromoteRegIn,
    LivePromoteRegOut,
    LivePromoteVarIn,
    LivePromoteVarOut,
    LiveUsedIn,
    LiveUsedOut,
};
use crate::interned_string::str_eq;
use crate::load::Loc;
use crate::points_to::{PointsToState, PointsToView};
use crate::regs::{Reg, reg_of_name, spec_args};
use crate::sorted_map::SortedMap;
use crate::var::{Var, var_args};
use crate::var_ref::{VarRef, VarSet};

verus! {

/// Whether `vars` holds `var`.
pub fn vars_contain(vars: &Vec<Var>, var: &Var) -> (r: bool)
    ensures
        r == vars@.contains(*var),
{
    let mut k: usize = 0;
    while k < vars.len()
        invariant
            k <= vars@.len(),
            forall|j: int| 0 <= j < k ==> vars@[j] != *var,
        decreases vars@.len() - k,
    {
        if vars[k].same(var) {
            assert(vars@[k as int] == *var);
            return true;
        }
        k += 1;
    }
    false
}

/// One tuple where the variable is not among those defined, none otherwise.
pub fn not_defined(i: &LiveNotDefinedIn) -> (r: Vec<LiveNotDefinedOut>)
    ensures
        r@.len() == if i.vars@.contains(*i.var) { 0nat } else { 1nat },
{
    let mut out: Vec<LiveNotDefinedOut> = Vec::new();
    if !vars_contain(i.vars, i.var) {
        out.push(LiveNotDefinedOut {  });
    }
    out
}

/// The variables that the assignment of `rhs` to `lhs` defines: for a
/// store, the bases of the addresses written through; for a register other
/// than a flag, a temporary or the stack pointer, the register.
pub open spec fn defined_by(lhs: Variable, rhs: Expression, func: Loc, db: Map<Var, u64>) -> Seq<Var> {
    match lhs.type_ {
        Type::Memory { .. } => match rhs {
            Expression::Store { index, .. } => picked_bases(
                extract_spec(*index, func, db),
                Pick::Addresses,
            ),
            _ => Seq::empty(),
        },
        Type::Immediate(w) => if w == 1 || lhs.tmp || lhs.name@ == "RSP"@ {
            Seq::empty()
        } else {
            match reg_of_name(lhs.name@) {
                Some(register) => seq![Var::Register { register }],
                None => Seq::empty(),
            }
        },
    }
}

/// The variables that the assignment of `rhs` to `lhs` uses: the bases,
/// temporaries aside, of the paths that are dereferenced in the address and
/// the value of a store, or in what is assigned to a register other than a
/// flag or the stack pointer.
pub open spec fn used_by(lhs: Variable, rhs: Expression, func: Loc, db: Map<Var, u64>) -> Seq<Var> {
    match lhs.type_ {
        Type::Memory { .. } => match rhs {
            Expression::Store { index, value, .. } => picked_bases(
                extract_spec(*index, func, db),
                Pick::Reads,
            ) + picked_bases(extract_spec(*value, func, db), Pick::Reads),
            _ => Seq::empty(),
        },
        Type::Immediate(w) => if w == 1 || lhs.name@ == "RSP"@ {
            Seq::empty()
        } else {
            picked_bases(extract_spec(rhs, func, db), Pick::Reads)
        },
    }
}

/// The variables that the assignment of `rhs` to `lhs` defines.
pub fn defined_walk(
    lhs: &Variable,
    rhs: &Expression,
    cur_addr: &Loc,
    func_addr: &Loc,
    tmp_db: &mut TmpDb,
) -> (r: Vec<Var>)
    requires
        old(tmp_db).wf(),
    ensures
        *final(tmp_db) == *old(tmp_db),
        r@ == defined_by(*lhs, *rhs, *func_addr, old(tmp_db)@),
{
    match lhs.type_ {
        Type::Memory { .. } => match rhs {
            Expression::Store { index, .. } => {
                let es = extract_expr(index, cur_addr, func_addr, tmp_db);
                bases_of(&es, Pick::Addresses)
            },
            _ => Vec::new(),
        },
        Type::Immediate(w) => {
            let mut out: Vec<Var> = Vec::new();
            if w == 1 || lhs.tmp || str_eq(lhs.name.as_str(), "RSP") {
                return out;
            }
            match Reg::from_name(lhs.name.as_str()) {
                Some(register) => {
                    out.push(Var::Register { register });
                    assert(out@ =~= seq![Var::Register { register }]);
                },
                None => {},
            }
            out
        },
    }
}

/// The variables that the assignment of `rhs` to `lhs` uses.
pub fn used_walk(
    lhs: &Variable,
    rhs: &Expression,
    cur_addr: &Loc,
    func_addr: &Loc,
    tmp_db: &mut TmpDb,
) -> (r: Vec<Var>)
    requires
        old(tmp_db).wf(),
    ensures
        *final(tmp_db) == *old(tmp_db),
        r@ == used_by(*lhs, *rhs, *func_addr, old(tmp_db)@),
{
    match lhs.type_ {
        Type::Memory { .. } => match rhs {
            Expression::Store { index, value, .. } => {
                let es = extract_expr(index, cur_addr, func_addr, tmp_db);
                let vs = extract_expr(value, cur_addr, func_addr, tmp_db);
                let mut out = bases_of(&es, Pick::Reads);
                let mut more = bases_of(&vs, Pick::Reads);
                out.append(&mut more);
                out
            },
            _ => Vec::new(),
        },
        Type::Immediate(w) => {
            if w == 1 || str_eq(lhs.name.as_str(), "RSP") {
                return Vec::new();
            }
            let es = extract_expr(rhs, cur_addr, func_addr, tmp_db);
            bases_of(&es, Pick::Reads)
        },
    }
}

/// The function that yields the variables an assignment defines.
pub struct DefinedWalk;

/// The function that yields the variables an assignment uses.
pub struct UsedWalk;

impl MoveVisitor for DefinedWalk {
    type Item = Var;

    type ItemView = Var;

    open spec fn item_view(item: Var) -> Var {
        item
    }

    open spec fn item_ok(item: Var) -> bool {
        true
    }

    open spec fn visit_items(
        &self,
        lhs: Variable,
        rhs: Expression,
        cur: Loc,
        func: Loc,
        db: Map<Var, u64>,
    ) -> Seq<Var> {
        defined_by(lhs, rhs, func, db)
    }

    open spec fn visit_db(
        &self,
        lhs: Variable,
        rhs: Expression,
        cur: Loc,
        func: Loc,
        db: Map<Var, u64>,
    ) -> Map<Var, u64> {
        db
    }

    fn visit(
        &self,
        lhs: &Variable,
        rhs: &Expression,
        cur_addr: &Loc,
        func_addr: &Loc,
        tmp_db: &mut TmpDb,
    ) -> (r: Vec<Var>) {
        defined_walk(lhs, rhs, cur_addr, func_addr, tmp_db)
    }
}

impl MoveVisitor for UsedWalk {
    type Item = Var;

    type ItemView = Var;

    open spec fn item_view(item: Var) -> Var {
        item
    }

    open spec fn item_ok(item: Var) -> bool {
        true
    }

    open spec fn visit_items(
        &self,
        lhs: Variable,
        rhs: Expression,
        cur: Loc,
        func: Loc,
        db: Map<Var, u64>,
    ) -> Seq<Var> {
        used_by(lhs, rhs, func, db)
    }

    open spec fn visit_db(
        &self,
        lhs: Variable,
        rhs: Expression,
        cur: Loc,
        func: Loc,
        db: Map<Var, u64>,
    ) -> Map<Var, u64> {
        db
    }

    fn visit(
        &self,
        lhs: &Variable,
        rhs: &Expression,
        cur_addr: &Loc,
        func_addr: &Loc,
        tmp_db: &mut TmpDb,
    ) -> (r: Vec<Var>) {
        used_walk(lhs, rhs, cur_addr, func_addr, tmp_db)
    }
}

/// The variables that the instruction defines, in order.
pub fn defined(i: &LiveDefinedIn) -> (r: Vec<LiveDefinedOut>)
    ensures
        r@.len() == 1,
        r@[0].vars@ == walk_list(DefinedWalk, i.bil@, *i.loc, *i.base, Map::empty()).0,
{
    let mut tmp_db: TmpDb = SortedMap::new();
    assert(i.bil@.subrange(0, i.bil@.len() as int) =~= i.bil@);
    let vars = walk_from(i.bil, 0, i.loc, i.base, &DefinedWalk, &mut tmp_db);
    assert(vars@ =~= walk_list(DefinedWalk, i.bil@, *i.loc, *i.base, Map::empty()).0);
    let mut out: Vec<LiveDefinedOut> = Vec::new();
    out.push(LiveDefinedOut { vars });
    out
}

/// The variables that the instruction uses, one tuple each, in order.
pub fn used(i: &LiveUsedIn) -> (r: Vec<LiveUsedOut>)
    ensures
        r@.len() == walk_list(UsedWalk, i.bil@, *i.loc, *i.base, Map::empty()).0.len(),
        forall|k: int|
            0 <= k < r@.len() ==> (#[trigger] r@[k]).var == walk_list(
                UsedWalk,
                i.bil@,
                *i.loc,
                *i.base,
                Map::empty(),
            ).0[k],
{
    let mut tmp_db: TmpDb = SortedMap::new();
    assert(i.bil@.subrange(0, i.bil@.len() as int) =~= i.bil@);
    let mut vars = walk_from(i.bil, 0, i.loc, i.base, &UsedWalk, &mut tmp_db);
    let mut out: Vec<LiveUsedOut> = Vec::new();
    let mut k: usize = 0;
    while k < vars.len()
        invariant
            k <= vars@.len(),
            out@.len() == k,
            forall|j: int| 0 <= j < k ==> (#[trigger] out@[j]).var == vars@[j],
        decreases vars@.len() - k,
    {
        out.push(LiveUsedOut { var: vars[k].copy() });
        k += 1;
    }
    out
}

/// The variable as a singleton.
pub fn promote_var(i: &LivePromoteVarIn) -> (r: Vec<LivePromoteVarOut>)
    ensures
        r@.len() == 1,
        r@[0].vars@ == seq![*i.var],
{
    let mut vars: Vec<Var> = Vec::new();
    vars.push(i.var.copy());
    assert(vars@ =~= seq![*i.var]);
    let mut out: Vec<LivePromoteVarOut> = Vec::new();
    out.push(LivePromoteVarOut { vars });
    out
}

/// What a call defines: the register that holds the result.
pub fn call_defs(_i: &LiveCallDefsIn) -> (r: Vec<LiveCallDefsOut>)
    ensures
        r@.len() == 1,
        r@[0].vars@ == seq![Var::Register { register: Reg::RAX }],
{
    let mut vars: Vec<Var> = Vec::new();
    vars.push(Var::Register { register: Reg::RAX });
    assert(vars@ =~= seq![Var::Register { register: Reg::RAX }]);
    let mut out: Vec<LiveCallDefsOut> = Vec::new();
    out.push(LiveCallDefsOut { vars });
    out
}

/// One tuple where the variable is no stack slot, none otherwise.
pub fn drop_stack(i: &LiveDropStackIn) -> (r: Vec<LiveDropStackOut>)
    ensures
        r@.len() == if *i.var is StackSlot { 0nat } else { 1nat },
{
    let mut out: Vec<LiveDropStackOut> = Vec::new();
    if !i.var.is_stack() {
        out.push(LiveDropStackOut {  });
    }
    out
}

/// One tuple where the variable is no stack slot of the frame of `func`,
/// none otherwise.
pub fn drop_frame(i: &LiveDropFrameIn) -> (r: Vec<LiveDropFrameOut>)
    ensures
        r@.len() == if *i.var is StackSlot && i.var->func_addr == *i.func { 0nat } else { 1nat },
{
    let mut out: Vec<LiveDropFrameOut> = Vec::new();
    let own = match i.var {
        Var::StackSlot { func_addr, .. } => func_addr.same(i.func),
        _ => false,
    };
    if !own {
        out.push(LiveDropFrameOut {  });
    }
    out
}

/// The register as a variable.
pub fn promote_reg(i: &LivePromoteRegIn) -> (r: Vec<LivePromoteRegOut>)
    ensures
        r@.len() == 1,
        r@[0].var == (Var::Register { register: *i.reg }),
{
    let mut out: Vec<LivePromoteRegOut> = Vec::new();
    out.push(LivePromoteRegOut { var: Var::Register { register: *i.reg } });
    out
}

/// The register as a singleton of variables.
pub fn entry_defined_promote(i: &LiveEntryDefinedPromoteIn) -> (r: Vec<LiveEntryDefinedPromoteOut>)
    ensures
        r@.len() == 1,
        r@[0].vars@ == seq![Var::Register { register: *i.register }],
{
    let mut vars: Vec<Var> = Vec::new();
    vars.push(Var::Register { register: *i.register });
    assert(vars@ =~= seq![Var::Register { register: *i.register }]);
    let mut out: Vec<LiveEntryDefinedPromoteOut> = Vec::new();
    out.push(LiveEntryDefinedPromoteOut { vars });
    out
}

/// The size of a machine word, in bytes.
pub const WORD_SIZE: u64 = 8;

/// The reference to the start of the synthetic cell `serial` of `site`.
pub open spec fn cell_ref(site: Loc, serial: nat) -> VarRef {
    VarRef { var: Var::Constructed { site, serial: serial as usize }, offset: Some(0) }
}

/// The state in which word `w` of `base` points to the cell `serial` of `site`.
pub open spec fn link(pts: PointsToView, base: Var, w: nat, site: Loc, serial: nat) -> PointsToView {
    pts.set_alias(
        VarRef { var: base, offset: Some((w * WORD_SIZE) as u64) },
        Set::empty().insert(cell_ref(site, serial)),
    )
}

/// The state in which the first `count` words of `base` point to the cells
/// of `site` from `serial` on.
pub open spec fn row(pts: PointsToView, base: Var, site: Loc, serial: nat, count: nat) -> PointsToView
    decreases count,
{
    if count == 0 {
        pts
    } else {
        link(
            row(pts, base, site, serial, (count - 1) as nat),
            base,
            (count - 1) as nat,
            site,
            (serial + count - 1) as nat,
        )
    }
}

/// The state in which each of `bases` has a row of `width` cells, numbered
/// from `serial` on in the order of the bases.
pub open spec fn level(
    pts: PointsToView,
    bases: Seq<Var>,
    site: Loc,
    serial: nat,
    width: nat,
) -> PointsToView
    decreases bases.len(),
{
    if bases.len() == 0 {
        pts
    } else {
        row(
            level(pts, bases.drop_last(), site, serial, width),
            bases.last(),
            site,
            (serial + (bases.len() - 1) * width) as nat,
            width,
        )
    }
}

/// The `count` cells of `site` from `serial` on.
pub open spec fn cells(site: Loc, serial: nat, count: nat) -> Seq<Var> {
    Seq::new(count, |i: int| Var::Constructed { site, serial: (serial + i) as usize })
}

/// The state in which a tree of cells hangs below `bases`: each base and
/// each cell above the last level points from each of its first `width`
/// words to a cell of its own, `depth` levels deep.
pub open spec fn structure(
    pts: PointsToView,
    bases: Seq<Var>,
    site: Loc,
    serial: nat,
    width: nat,
    depth: nat,
) -> PointsToView
    decreases depth,
{
    if depth == 0 {
        pts
    } else {
        structure(
            level(pts, bases, site, serial, width),
            cells(site, serial, bases.len() * width),
            site,
            serial + bases.len() * width,
            width,
            (depth - 1) as nat,
        )
    }
}

/// The serial number after a tree has been built below `bases` bases.
pub open spec fn structure_end(serial: nat, bases: nat, width: nat, depth: nat) -> nat
    decreases depth,
{
    if depth == 0 {
        serial
    } else {
        structure_end(serial + bases * width, bases * width, width, (depth - 1) as nat)
    }
}

proof fn lemma_structure_end_grows(serial: nat, bases: nat, width: nat, depth: nat)
    ensures
        structure_end(serial, bases, width, depth) >= serial,
    decreases depth,
{
    if depth > 0 {
        lemma_structure_end_grows(serial + bases * width, bases * width, width, (depth - 1) as nat);
    }
}

/// The next synthetic cell of `loc`.
pub fn construct(serial: &mut usize, loc: &Loc) -> (r: Var)
    requires
        *old(serial) < usize::MAX,
    ensures
        r == (Var::Constructed { site: *loc, serial: *old(serial) }),
        *final(serial) == *old(serial) + 1,
{
    let out = Var::Constructed { site: loc.copy(), serial: *serial };
    *serial += 1;
    out
}

/// Hangs a tree of synthetic cells of `loc` below `var`.
pub fn build_struct(
    pts: &mut PointsToState,
    serial: &mut usize,
    var: Var,
    loc: &Loc,
    width: usize,
    depth: usize,
)
    requires
        old(pts).wf(),
        structure_end(*old(serial) as nat, 1, width as nat, depth as nat) <= usize::MAX,
        width * WORD_SIZE <= u64::MAX,
    ensures
        final(pts).wf(),
        final(pts)@ == structure(
            old(pts)@,
            seq![var],
            *loc,
            *old(serial) as nat,
            width as nat,
            depth as nat,
        ),
        *final(serial) == structure_end(*old(serial) as nat, 1, width as nat, depth as nat),
{
    let mut bases: Vec<Var> = Vec::new();
    bases.push(var);
    assert(bases@ =~= seq![var]);
    let ghost goal = structure(
        old(pts)@,
        seq![var],
        *loc,
        *old(serial) as nat,
        width as nat,
        depth as nat,
    );
    let ghost end = structure_end(*old(serial) as nat, 1, width as nat, depth as nat);
    let mut d: usize = 0;
    while d < depth
        invariant
            d <= depth,
            pts.wf(),
            width * WORD_SIZE <= u64::MAX,
            end <= usize::MAX,
            structure(pts@, bases@, *loc, *serial as nat, width as nat, (depth - d) as nat) == goal,
            structure_end(*serial as nat, bases@.len(), width as nat, (depth - d) as nat) == end,
        decreases depth - d,
    {
        let ghost s0 = *serial as nat;
        let ghost pts0 = pts@;
        let ghost n = bases@.len();
        proof {
            lemma_structure_end_grows(
                (s0 + n * width) as nat,
                (n * width) as nat,
                width as nat,
                (depth - d - 1) as nat,
            );
        }
        let mut new_bases: Vec<Var> = Vec::new();
        let mut b: usize = 0;
        assert(new_bases@ =~= cells(*loc, s0, 0));
        assert(bases@.subrange(0, 0) =~= Seq::<Var>::empty());
        while b < bases.len()
            invariant
                b <= bases@.len(),
                n == bases@.len(),
                pts.wf(),
                width * WORD_SIZE <= u64::MAX,
                s0 + n * width <= usize::MAX,
                *serial == s0 + b * width,
                pts@ == level(pts0, bases@.subrange(0, b as int), *loc, s0, width as nat),
                new_bases@ == cells(*loc, s0, (b * width) as nat),
            decreases bases@.len() - b,
        {
            let ghost s1 = *serial as nat;
            let ghost pts1 = pts@;
            proof {
                assert((b + 1) * width <= n * width) by (nonlinear_arith)
                    requires
                        b + 1 <= n,
                ;
                assert((b + 1) * width == b * width + width) by (nonlinear_arith);
            }
            let mut w: usize = 0;
            while w < width
                invariant
                    w <= width,
                    b < bases@.len(),
                    pts.wf(),
                    width * WORD_SIZE <= u64::MAX,
                    s1 == s0 + b * width,
                    s1 + width <= usize::MAX,
                    *serial == s1 + w,
                    pts@ == row(pts1, bases@[b as int], *loc, s1, w as nat),
                    new_bases@ == cells(*loc, s0, (b * width + w) as nat),
                decreases width - w,
            {
                let target = construct(serial, loc);
                let mut target_set = VarSet::new();
                target_set.insert(VarRef { var: target.copy(), offset: Some(0) });
                proof {
                    assert(target_set@ =~= Set::empty().insert(cell_ref(*loc, (s1 + w) as nat)));
                    assert(w * WORD_SIZE <= width * WORD_SIZE) by (nonlinear_arith)
                        requires
                            w <= width,
                    ;
                }
                let offset: u64 = (w as u64) * WORD_SIZE;
                pts.set_alias(VarRef { var: bases[b].copy(), offset: Some(offset) }, target_set);
                new_bases.push(target);
                proof {
                    assert(new_bases@ =~= cells(*loc, s0, (b * width + w + 1) as nat));
                }
                w += 1;
            }
            proof {
                let done = bases@.subrange(0, b + 1);
                assert(done.drop_last() =~= bases@.subrange(0, b as int));
                assert(done.last() == bases@[b as int]);
            }
            b += 1;
        }
        proof {
            assert(bases@.subrange(0, b as int) =~= bases@);
        }
        bases = new_bases;
        d += 1;
    }
}

/// The arguments among `live` that are not among `defined`, in order.
pub open spec fn undef_args(live: Seq<Var>, defined: Seq<Var>) -> Seq<Var>
    decreases live.len(),
{
    if live.len() == 0 {
        Seq::empty()
    } else {
        let rest = undef_args(live.drop_last(), defined);
        let v = live.last();
        if !defined.contains(v) && (v matches Var::Register { register } && spec_args().contains(
            register,
        )) {
            rest.push(v)
        } else {
            rest
        }
    }
}

/// The state in which a tree of width 4 and depth 2 hangs below each of
/// `undefs`, the cells numbered from 0 on.
pub open spec fn region(pts: PointsToView, undefs: Seq<Var>, site: Loc) -> PointsToView
    decreases undefs.len(),
{
    if undefs.len() == 0 {
        pts
    } else {
        structure(
            region(pts, undefs.drop_last(), site),
            seq![undefs.last()],
            site,
            (20 * (undefs.len() - 1)) as nat,
            4,
            2,
        )
    }
}

proof fn lemma_structure_end_region(serial: nat)
    ensures
        structure_end(serial, 1, 4, 2) == serial + 20,
{
    assert(structure_end(serial, 1, 4, 2) == structure_end(serial + 4, 4, 4, 1));
    assert(structure_end(serial + 4, 4, 4, 1) == structure_end(serial + 20, 16, 4, 0));
}

/// The state at the entry of a function whose argument registers among
/// `live` are not all among `defined`: each undefined argument points to a
/// region of its own. Nothing where every live argument is defined.
pub fn undef_live(i: &LiveUndefLiveIn) -> (r: Vec<LiveUndefLiveOut>)
    requires
        i.live@.len() * 20 <= usize::MAX,
    ensures
        if undef_args(i.live@, i.defined@).len() == 0 {
            r@.len() == 0
        } else {
            r@.len() == 1 && r@[0].pts.wf() && r@[0].pts@ == region(
                PointsToView::new(*i.loc),
                undef_args(i.live@, i.defined@),
                *i.loc,
            )
        },
{
    let args = var_args();
    let mut undefs: Vec<Var> = Vec::new();
    let mut k: usize = 0;
    while k < i.live.len()
        invariant
            k <= i.live@.len(),
            args@ == spec_args().map_values(|register: Reg| Var::Register { register }),
            undefs@ == undef_args(i.live@.subrange(0, k as int), i.defined@),
            undefs@.len() <= k,
        decreases i.live@.len() - k,
    {
        let var = &i.live[k];
        proof {
            assert(i.live@.subrange(0, k + 1).drop_last() =~= i.live@.subrange(0, k as int));
            assert(i.live@.subrange(0, k + 1).last() == *var);
            let is_arg = *var matches Var::Register { register } && spec_args().contains(register);
            if args@.contains(*var) {
                let j = choose|j: int| 0 <= j < args@.len() && args@[j] == *var;
                assert(spec_args().contains(spec_args()[j]));
            }
            if is_arg {
                let reg = var->register;
                let j = choose|j: int| 0 <= j < spec_args().len() && spec_args()[j] == reg;
                assert(args@[j] == *var);
            }
        }
        if !vars_contain(i.defined, var) && vars_contain(&args, var) {
            undefs.push(var.copy());
        }
        k += 1;
    }
    assert(i.live@.subrange(0, k as int) =~= i.live@);
    let mut out: Vec<LiveUndefLiveOut> = Vec::new();
    if undefs.len() == 0 {
        return out;
    }
    let mut pts = PointsToState::new(i.loc.copy());
    let mut serial: usize = 0;
    let mut k: usize = 0;
    while k < undefs.len()
        invariant
            k <= undefs@.len(),
            undefs@.len() * 20 <= usize::MAX,
            pts.wf(),
            serial == 20 * k,
            pts@ == region(PointsToView::new(*i.loc), undefs@.subrange(0, k as int), *i.loc),
        decreases undefs@.len() - k,
    {
        proof {
            lemma_structure_end_region(serial as nat);
            assert(undefs@.subrange(0, k + 1).drop_last() =~= undefs@.subrange(0, k as int));
            assert(undefs@.subrange(0, k + 1).last() == undefs@[k as int]);
        }
        build_struct(&mut pts, &mut serial, undefs[k].copy(), i.loc, 4, 2);
        k += 1;
    }
    assert(undefs@.subrange(0, k as int) =~= undefs@);
    out.push(LiveUndefLiveOut { pts });
    out
}

} // verus!
