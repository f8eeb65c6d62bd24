//! Abstract variables: the cells the analysis tracks.

use vstd::prelude::*;
use crate::load::{Loc, loc_lt};
use crate::order::{Key, Rank, StrictOrder};
use crate::regs::Reg;

verus! {

/// An abstract variable.
#[derive(Debug, PartialEq, Eq, PartialOrd, Ord, Hash)]
#[allow(inconsistent_fields)]
pub enum Var {
    /// A slot in the frame of the function entered at `func_addr`.
    StackSlot { func_addr: Loc, offset: usize },
    /// An architectural register.
    Register { register: Reg },
    /// A temporary of the intermediate language; it lives for one instruction.
    Temp { serial: u32 },
    /// The object allocated at `site`; `stale` marks an earlier generation.
    Alloc { site: Loc, stale: bool },
    /// A witness that what points here was released at `site`.
    Freed { site: Loc },
    /// A cell of the region synthesised at `site` for undefined arguments.
    Constructed { site: Loc, serial: usize },
}

/// A test on variables that can be both stated and run.
pub trait VarPredicate {
    /// Whether the test is in a state to be run.
    spec fn valid(&self) -> bool;

    /// Whether the test holds of `v`.
    spec fn holds(&self, v: Var) -> bool;

    /// Runs the test on `v`.
    fn test(&self, v: &Var) -> (r: bool)
        requires
            self.valid(),
        ensures
            r == self.holds(*v),
    ;
}

/// The test `p` as a function on variables.
pub open spec fn holds_of<P: VarPredicate>(p: P) -> spec_fn(Var) -> bool {
    |v: Var| p.holds(v)
}

/// Whether `c` is a decimal digit.
pub open spec fn is_digit(c: char) -> bool {
    '0' <= c && c <= '9'
}

/// The position of the first digit in `s`, or the length of `s` if it has none.
pub open spec fn first_digit(s: Seq<char>) -> int
    decreases s.len(),
{
    if s.len() == 0 {
        0
    } else if is_digit(s[0]) {
        0
    } else {
        1 + first_digit(s.drop_first())
    }
}

/// The number that the digits `d` spell in base ten.
pub open spec fn decimal_value(d: Seq<char>) -> nat
    decreases d.len(),
{
    if d.len() == 0 {
        0
    } else {
        decimal_value(d.drop_last()) * 10 + (d.last() as nat - '0' as nat) as nat
    }
}

/// The serial number in the name of a temporary: what follows the first
/// digit, if that is a non-empty run of digits spelling a 32-bit number.
pub open spec fn temp_serial(name: Seq<char>) -> Option<u32> {
    let d = name.subrange(first_digit(name), name.len() as int);
    if d.len() > 0 && (forall|i: int| 0 <= i < d.len() ==> is_digit(#[trigger] d[i]))
        && decimal_value(d) <= u32::MAX {
        Some(decimal_value(d) as u32)
    } else {
        None
    }
}

proof fn lemma_first_digit(s: Seq<char>)
    ensures
        0 <= first_digit(s) <= s.len(),
        forall|i: int| 0 <= i < first_digit(s) ==> !is_digit(#[trigger] s[i]),
        first_digit(s) < s.len() ==> is_digit(s[first_digit(s)]),
    decreases s.len(),
{
    if s.len() > 0 && !is_digit(s[0]) {
        lemma_first_digit(s.drop_first());
        assert forall|i: int| 0 <= i < first_digit(s) implies !is_digit(#[trigger] s[i]) by {
            if i > 0 {
                assert(s[i] == s.drop_first()[i - 1]);
            }
        }
    }
}

proof fn lemma_first_digit_is(s: Seq<char>, k: int)
    requires
        0 <= k <= s.len(),
        forall|i: int| 0 <= i < k ==> !is_digit(#[trigger] s[i]),
        k < s.len() ==> is_digit(s[k]),
    ensures
        first_digit(s) == k,
{
    lemma_first_digit(s);
    let f = first_digit(s);
    if f < k {
        assert(!is_digit(s[f]));
    } else if k < f {
        assert(!is_digit(s[k]));
    }
}

/// Reads the serial number in the name of a temporary.
pub fn parse_temp_serial(name: &str) -> (r: Option<u32>)
    ensures
        r == temp_serial(name@),
{
    let n = name.unicode_len();
    let mut start: usize = 0;
    while start < n && !char_is_digit(name.get_char(start))
        invariant
            start <= n,
            n == name@.len(),
            forall|i: int| 0 <= i < start ==> !is_digit(#[trigger] name@[i]),
        decreases n - start,
    {
        start += 1;
    }
    proof {
        lemma_first_digit_is(name@, start as int);
    }
    let ghost d = name@.subrange(start as int, n as int);
    if start == n {
        return None;
    }
    let mut i: usize = start;
    let mut value: u64 = 0;
    while i < n
        invariant
            start <= i <= n,
            n == name@.len(),
            d == name@.subrange(start as int, n as int),
            first_digit(name@) == start,
            forall|j: int| 0 <= j < i - start ==> is_digit(#[trigger] d[j]),
            value == decimal_value(d.subrange(0, i - start)),
            value <= u32::MAX,
        decreases n - i,
    {
        let c = name.get_char(i);
        assert(d[i - start] == c);
        if !char_is_digit(c) {
            assert(!is_digit(d[i - start]));
            return None;
        }
        let digit: u64 = (c as u32 - '0' as u32) as u64;
        let next: u64 = value * 10 + digit;
        proof {
            let pre = d.subrange(0, i - start + 1);
            assert(pre.drop_last() =~= d.subrange(0, i - start));
            assert(pre.last() == c);
            assert(next == decimal_value(pre));
        }
        if next > 0xFFFF_FFFF {
            proof {
                if forall|j: int| 0 <= j < d.len() ==> is_digit(#[trigger] d[j]) {
                    lemma_decimal_prefix(d, i - start + 1);
                }
            }
            return None;
        }
        value = next;
        i += 1;
    }
    assert(d.subrange(0, n - start) =~= d);
    Some(value as u32)
}

proof fn lemma_decimal_prefix(d: Seq<char>, k: int)
    requires
        0 <= k <= d.len(),
        forall|i: int| 0 <= i < d.len() ==> is_digit(#[trigger] d[i]),
    ensures
        decimal_value(d.subrange(0, k)) <= decimal_value(d),
    decreases d.len() - k,
{
    if k == d.len() {
        assert(d.subrange(0, k) =~= d);
    } else {
        lemma_decimal_prefix(d, k + 1);
        let pre = d.subrange(0, k + 1);
        assert(pre.drop_last() =~= d.subrange(0, k));
        assert(is_digit(d[k]));
        assert(pre.last() == d[k]);
    }
}

/// Whether `c` is a decimal digit.
pub fn char_is_digit(c: char) -> (r: bool)
    ensures
        r == is_digit(c),
{
    '0' <= c && c <= '9'
}

/// The argument registers as variables, in order.
pub fn var_args() -> (r: Vec<Var>)
    ensures
        r@ == crate::regs::spec_args().map_values(|register: Reg| Var::Register { register }),
{
    let regs = crate::regs::args();
    let mut out: Vec<Var> = Vec::new();
    let mut i: usize = 0;
    while i < regs.len()
        invariant
            i <= regs.len(),
            out@ == regs@.subrange(0, i as int).map_values(|register: Reg| Var::Register { register }),
        decreases regs.len() - i,
    {
        out.push(Var::Register { register: regs[i] });
        assert(regs@.subrange(0, i + 1) =~= regs@.subrange(0, i as int).push(regs@[i as int]));
        assert(out@ =~= regs@.subrange(0, i + 1).map_values(
            |register: Reg| Var::Register { register },
        ));
        i += 1;
    }
    assert(regs@.subrange(0, i as int) =~= regs@);
    out
}

/// The strict order on variables: by kind in the order of declaration, then
/// by the fields in the order of declaration.
pub open spec fn var_lt(a: Var, b: Var) -> bool {
    match (a, b) {
        (
            Var::StackSlot { func_addr: fa, offset: oa },
            Var::StackSlot { func_addr: fb, offset: ob },
        ) => loc_lt(fa, fb) || (fa == fb && oa < ob),
        (Var::Register { register: ra }, Var::Register { register: rb }) => ra.lt(rb),
        (Var::Temp { serial: sa }, Var::Temp { serial: sb }) => sa < sb,
        (Var::Alloc { site: sa, stale: ta }, Var::Alloc { site: sb, stale: tb }) => loc_lt(sa, sb)
            || (sa == sb && !ta && tb),
        (Var::Freed { site: sa }, Var::Freed { site: sb }) => loc_lt(sa, sb),
        (Var::Constructed { site: sa, serial: na }, Var::Constructed { site: sb, serial: nb }) => loc_lt(
            sa,
            sb,
        ) || (sa == sb && na < nb),
        _ => a.kind() < b.kind(),
    }
}

impl Var {
    /// The position of the variable's kind in the declaration order.
    pub open spec fn kind(self) -> int {
        match self {
            Var::StackSlot { .. } => 0,
            Var::Register { .. } => 1,
            Var::Temp { .. } => 2,
            Var::Alloc { .. } => 3,
            Var::Freed { .. } => 4,
            Var::Constructed { .. } => 5,
        }
    }

    fn kind_of(&self) -> (k: u8)
        ensures
            k == self.kind(),
    {
        match self {
            Var::StackSlot { .. } => 0,
            Var::Register { .. } => 1,
            Var::Temp { .. } => 2,
            Var::Alloc { .. } => 3,
            Var::Freed { .. } => 4,
            Var::Constructed { .. } => 5,
        }
    }

    /// The temporary that `name` names.
    pub fn temp(name: &str) -> (v: Var)
        requires
            temp_serial(name@) is Some,
        ensures
            v == (Var::Temp { serial: temp_serial(name@).unwrap() }),
    {
        match parse_temp_serial(name) {
            Some(serial) => Var::Temp { serial },
            None => Var::Temp { serial: 0 },
        }
    }

    /// The location the variable is bound to, if its kind has one.
    pub open spec fn spec_site(self) -> Option<Loc> {
        match self {
            Var::StackSlot { func_addr, .. } => Some(func_addr),
            Var::Alloc { site, .. } => Some(site),
            Var::Freed { site } => Some(site),
            _ => None,
        }
    }

    /// Whether the variable is a stack slot, an allocation or a free witness
    /// whose location carries call-stack context.
    pub fn is_stacked(&self) -> (r: bool)
        ensures
            r == match self.spec_site() {
                Some(l) => !(l.stack is NoStack),
                None => false,
            },
    {
        match self {
            Var::StackSlot { func_addr, .. } => func_addr.is_stacked(),
            Var::Alloc { site, .. } => site.is_stacked(),
            Var::Freed { site } => site.is_stacked(),
            _ => false,
        }
    }

    /// Whether the variable is a temporary.
    pub fn is_temp(&self) -> (r: bool)
        ensures
            r == (*self is Temp),
    {
        match self {
            Var::Temp { .. } => true,
            _ => false,
        }
    }

    /// Whether the variable is an allocation.
    pub fn is_dyn(&self) -> (r: bool)
        ensures
            r == (*self is Alloc),
    {
        match self {
            Var::Alloc { .. } => true,
            _ => false,
        }
    }

    /// Whether the variable is a free witness.
    pub fn is_freed(&self) -> (r: bool)
        ensures
            r == (*self is Freed),
    {
        match self {
            Var::Freed { .. } => true,
            _ => false,
        }
    }

    /// Whether the variable is a stack slot.
    pub fn is_stack(&self) -> (r: bool)
        ensures
            r == (*self is StackSlot),
    {
        match self {
            Var::StackSlot { .. } => true,
            _ => false,
        }
    }

    /// Whether the variable is a stack slot of a function whose frame is not
    /// among `frames`.
    pub open spec fn spec_other_func(self, frames: Seq<Loc>) -> bool {
        match self {
            Var::StackSlot { func_addr, .. } => !frames.contains(func_addr),
            _ => false,
        }
    }

    /// Whether the variable is a stack slot of a function whose frame is not
    /// among `frames`.
    pub fn other_func(&self, frames: &[Loc]) -> (r: bool)
        ensures
            r == self.spec_other_func(frames@),
    {
        match self {
            Var::StackSlot { func_addr, .. } => {
                let mut i: usize = 0;
                while i < frames.len()
                    invariant
                        i <= frames.len(),
                        *self is StackSlot,
                        self->func_addr == *func_addr,
                        forall|j: int| 0 <= j < i ==> frames@[j] != *func_addr,
                    decreases frames.len() - i,
                {
                    if frames[i].same(func_addr) {
                        assert(frames@[i as int] == *func_addr);
                        return false;
                    }
                    i += 1;
                }
                true
            },
            _ => false,
        }
    }

    /// An exact copy of the variable.
    pub fn copy(&self) -> (r: Var)
        ensures
            r == *self,
    {
        match self {
            Var::StackSlot { func_addr, offset } => Var::StackSlot {
                func_addr: func_addr.copy(),
                offset: *offset,
            },
            Var::Register { register } => Var::Register { register: *register },
            Var::Temp { serial } => Var::Temp { serial: *serial },
            Var::Alloc { site, stale } => Var::Alloc { site: site.copy(), stale: *stale },
            Var::Freed { site } => Var::Freed { site: site.copy() },
            Var::Constructed { site, serial } => Var::Constructed {
                site: site.copy(),
                serial: *serial,
            },
        }
    }

    /// Whether two variables are equal.
    pub fn same(&self, other: &Var) -> (r: bool)
        ensures
            r == (*self == *other),
    {
        match self.rank(other) {
            Rank::Same => true,
            _ => false,
        }
    }

    /// Places `self` against `other` in the order `var_lt`.
    pub fn rank(&self, other: &Var) -> (r: Rank)
        ensures
            (r == Rank::Below) == var_lt(*self, *other),
            (r == Rank::Same) == (*self == *other),
            (r == Rank::Above) == var_lt(*other, *self),
    {
        proof {
            lemma_var_lt_irreflexive(*self);
            if var_lt(*self, *other) && var_lt(*other, *self) {
                lemma_var_lt_transitive(*self, *other, *self);
            }
            lemma_var_lt_irreflexive(*other);
        }
        match (self, other) {
            (
                Var::StackSlot { func_addr: fa, offset: oa },
                Var::StackSlot { func_addr: fb, offset: ob },
            ) => {
                match fa.rank(fb) {
                    Rank::Same => rank_usize(*oa, *ob),
                    r => r,
                }
            },
            (Var::Register { register: ra }, Var::Register { register: rb }) => ra.order(rb),
            (Var::Temp { serial: sa }, Var::Temp { serial: sb }) => {
                if *sa < *sb {
                    Rank::Below
                } else if *sa == *sb {
                    Rank::Same
                } else {
                    Rank::Above
                }
            },
            (Var::Alloc { site: sa, stale: ta }, Var::Alloc { site: sb, stale: tb }) => {
                match sa.rank(sb) {
                    Rank::Same => {
                        if *ta == *tb {
                            Rank::Same
                        } else if *tb {
                            Rank::Below
                        } else {
                            Rank::Above
                        }
                    },
                    r => r,
                }
            },
            (Var::Freed { site: sa }, Var::Freed { site: sb }) => sa.rank(sb),
            (
                Var::Constructed { site: sa, serial: na },
                Var::Constructed { site: sb, serial: nb },
            ) => {
                match sa.rank(sb) {
                    Rank::Same => rank_usize(*na, *nb),
                    r => r,
                }
            },
            _ => {
                let ka = self.kind_of();
                let kb = other.kind_of();
                if ka < kb {
                    Rank::Below
                } else {
                    Rank::Above
                }
            },
        }
    }
}

fn rank_usize(a: usize, b: usize) -> (r: Rank)
    ensures
        (r == Rank::Below) == (a < b),
        (r == Rank::Same) == (a == b),
        (r == Rank::Above) == (a > b),
{
    if a < b {
        Rank::Below
    } else if a == b {
        Rank::Same
    } else {
        Rank::Above
    }
}

proof fn lemma_var_lt_irreflexive(a: Var)
    ensures
        !var_lt(a, a),
{
    match a {
        Var::StackSlot { func_addr, .. } => Loc::lt_irreflexive(func_addr),
        Var::Alloc { site, .. } => Loc::lt_irreflexive(site),
        Var::Freed { site } => Loc::lt_irreflexive(site),
        Var::Constructed { site, .. } => Loc::lt_irreflexive(site),
        _ => {},
    }
}

proof fn lemma_var_lt_transitive(a: Var, b: Var, c: Var)
    requires
        var_lt(a, b),
        var_lt(b, c),
    ensures
        var_lt(a, c),
{
    match (a.spec_loc(), b.spec_loc(), c.spec_loc()) {
        (Some(x), Some(y), Some(z)) => {
            if loc_lt(x, y) && loc_lt(y, z) {
                Loc::lt_transitive(x, y, z);
            }
        },
        _ => {},
    }
}

proof fn lemma_var_lt_total(a: Var, b: Var)
    ensures
        var_lt(a, b) || var_lt(b, a) || a == b,
{
    match (a.spec_loc(), b.spec_loc()) {
        (Some(x), Some(y)) => {
            Loc::lt_total(x, y);
        },
        _ => {},
    }
}

impl Var {
    /// The location in the variable, if its kind has one.
    pub open spec fn spec_loc(self) -> Option<Loc> {
        match self {
            Var::StackSlot { func_addr, .. } => Some(func_addr),
            Var::Alloc { site, .. } => Some(site),
            Var::Freed { site } => Some(site),
            Var::Constructed { site, .. } => Some(site),
            _ => None,
        }
    }
}

impl Clone for Var {
    fn clone(&self) -> (r: Var)
        ensures
            r == *self,
    {
        self.copy()
    }
}

impl StrictOrder for Var {
    open spec fn lt(self, other: Var) -> bool {
        var_lt(self, other)
    }

    proof fn lt_irreflexive(x: Var) {
        assert(x.lt(x) == var_lt(x, x));
        lemma_var_lt_irreflexive(x);
    }

    proof fn lt_transitive(x: Var, y: Var, z: Var) {
        assert(x.lt(y) == var_lt(x, y) && y.lt(z) == var_lt(y, z) && x.lt(z) == var_lt(x, z));
        lemma_var_lt_transitive(x, y, z);
    }

    proof fn lt_total(x: Var, y: Var) {
        assert(x.lt(y) == var_lt(x, y) && y.lt(x) == var_lt(y, x));
        lemma_var_lt_total(x, y);
    }
}

impl Key for Var {
    fn order(&self, other: &Var) -> (r: Rank) {
        self.rank(other)
    }

    fn dup(&self) -> (r: Var) {
        self.copy()
    }
}

} // verus!
