//! Code locations, their call-stack context, and the functions that turn
//! what the decoder reports into control-flow facts.

use vstd::prelude::*;
use crate::bil::{Expression, Statement, stmts_succ};
use crate::datalog::{
    LoadCallSiteStackIn,
    LoadCallSiteStackOut,
    LoadCalledFilterIn,
    LoadCalledFilterOut,
    LoadCalledUnstackedIn,
    LoadCalledUnstackedOut,
    LoadIsComputedJumpIn,
    LoadIsComputedJumpOut,
    LoadIsFreeNameIn,
    LoadIsFreeNameOut,
    LoadIsMallocNameIn,
    LoadIsMallocNameOut,
    LoadIsReturningNameIn,
    LoadIsReturningNameOut,
    LoadSemaSuccIn,
    LoadSemaSuccOut,
    LoadSingletonStringIn,
    LoadSingletonStringOut,
};
use crate::interned_string::{InternedString, str_eq};
use crate::order::{Key, Rank, StrictOrder};
use crate::text::{
    chars_of,
    contains_str,
    find_char,
    has_substring,
    next_char,
    parse_hex,
    parse_hex_spec,
};

verus! {

/// The deepest call stack a location carries.
pub const STACK_MAX_DEPTH: usize = 1;

/// The call-stack context of a location.
#[derive(Debug, PartialEq, Eq, PartialOrd, Ord, Hash)]
pub enum Stack {
    /// Stack tracking is not in use.
    NoStack,
    /// Stack tracking is in use, and no caller is recorded.
    EmptyStack,
    /// Stack tracking is in use; the location is where the call returns to.
    Return(Box<Loc>),
}

/// A code location.
#[derive(Debug, PartialEq, Eq, PartialOrd, Ord, Hash)]
pub struct Loc {
    /// The file that holds the code.
    pub file_name: InternedString,
    /// The address of the instruction.
    pub addr: u64,
    /// The call-stack context.
    pub stack: Stack,
}

/// The strict order on stacks: `NoStack`, then `EmptyStack`, then the
/// `Return` stacks in the order of their locations.
pub open spec fn stack_lt(a: Stack, b: Stack) -> bool
    decreases a,
{
    match a {
        Stack::NoStack => !(b is NoStack),
        Stack::EmptyStack => b is Return,
        Stack::Return(x) => match b {
            Stack::Return(y) => loc_lt(*x, *y),
            _ => false,
        },
    }
}

/// The strict order on locations: by file, then address, then stack.
pub open spec fn loc_lt(a: Loc, b: Loc) -> bool
    decreases a,
{
    ||| a.file_name.lt(b.file_name)
    ||| (a.file_name == b.file_name && a.addr < b.addr)
    ||| (a.file_name == b.file_name && a.addr == b.addr && stack_lt(a.stack, b.stack))
}

proof fn lemma_stack_lt_irreflexive(a: Stack)
    ensures
        !stack_lt(a, a),
    decreases a,
{
    match a {
        Stack::Return(x) => {
            lemma_loc_lt_irreflexive(*x);
        },
        _ => {},
    }
}

proof fn lemma_loc_lt_irreflexive(a: Loc)
    ensures
        !loc_lt(a, a),
    decreases a,
{
    InternedString::lt_irreflexive(a.file_name);
    lemma_stack_lt_irreflexive(a.stack);
}

proof fn lemma_stack_lt_transitive(a: Stack, b: Stack, c: Stack)
    requires
        stack_lt(a, b),
        stack_lt(b, c),
    ensures
        stack_lt(a, c),
    decreases a,
{
    match (a, b, c) {
        (Stack::Return(x), Stack::Return(y), Stack::Return(z)) => {
            lemma_loc_lt_transitive(*x, *y, *z);
        },
        _ => {},
    }
}

proof fn lemma_loc_lt_transitive(a: Loc, b: Loc, c: Loc)
    requires
        loc_lt(a, b),
        loc_lt(b, c),
    ensures
        loc_lt(a, c),
    decreases a,
{
    if a.file_name.lt(b.file_name) && b.file_name.lt(c.file_name) {
        InternedString::lt_transitive(a.file_name, b.file_name, c.file_name);
    }
    if stack_lt(a.stack, b.stack) && stack_lt(b.stack, c.stack) {
        lemma_stack_lt_transitive(a.stack, b.stack, c.stack);
    }
}

proof fn lemma_stack_lt_total(a: Stack, b: Stack)
    ensures
        stack_lt(a, b) || stack_lt(b, a) || a == b,
    decreases a,
{
    match (a, b) {
        (Stack::Return(x), Stack::Return(y)) => {
            lemma_loc_lt_total(*x, *y);
        },
        _ => {},
    }
}

proof fn lemma_loc_lt_total(a: Loc, b: Loc)
    ensures
        loc_lt(a, b) || loc_lt(b, a) || a == b,
    decreases a,
{
    InternedString::lt_total(a.file_name, b.file_name);
    lemma_stack_lt_total(a.stack, b.stack);
}

impl Stack {
    /// How many return locations the stack holds.
    pub open spec fn depth(self) -> nat
        decreases self,
    {
        match self {
            Stack::Return(l) => 1 + l.stack.depth(),
            _ => 0,
        }
    }

    /// The part of the stack that starts at the first return location with
    /// address `addr`, if there is one.
    pub open spec fn spec_find(self, addr: u64) -> Option<Stack>
        decreases self,
    {
        match self {
            Stack::Return(l) => if l.addr == addr {
                Some(self)
            } else {
                l.stack.spec_find(addr)
            },
            _ => None,
        }
    }

    /// The stack without a loop through its first return location: where that
    /// location's address occurs again further down, the stack restarts there.
    pub open spec fn spec_deloop(self) -> Stack {
        match self {
            Stack::Return(l) => match l.stack.spec_find(l.addr) {
                Some(s) => s,
                None => self,
            },
            _ => self,
        }
    }

    /// The stack cut off below `limit` return locations. With `limit` 0 the
    /// result is `EmptyStack`, whatever the stack was.
    pub open spec fn spec_relimit(self, limit: nat) -> Stack
        decreases self,
    {
        if limit == 0 {
            Stack::EmptyStack
        } else {
            match self {
                Stack::Return(l) => Stack::Return(
                    Box::new(
                        Loc {
                            file_name: l.file_name,
                            addr: l.addr,
                            stack: l.stack.spec_relimit((limit - 1) as nat),
                        },
                    ),
                ),
                _ => self,
            }
        }
    }

    /// An exact copy of the stack.
    pub fn dup(&self) -> (r: Stack)
        ensures
            r == *self,
        decreases *self,
    {
        match self {
            Stack::NoStack => Stack::NoStack,
            Stack::EmptyStack => Stack::EmptyStack,
            Stack::Return(l) => Stack::Return(Box::new(l.copy())),
        }
    }

    /// Places `self` against `other` in the order `stack_lt`.
    pub fn order(&self, other: &Stack) -> (r: Rank)
        ensures
            (r == Rank::Below) == stack_lt(*self, *other),
            (r == Rank::Same) == (*self == *other),
            (r == Rank::Above) == stack_lt(*other, *self),
        decreases *self,
    {
        proof {
            lemma_stack_lt_irreflexive(*self);
            if stack_lt(*self, *other) && stack_lt(*other, *self) {
                lemma_stack_lt_transitive(*self, *other, *self);
            }
        }
        match self {
            Stack::NoStack => match other {
                Stack::NoStack => Rank::Same,
                _ => Rank::Below,
            },
            Stack::EmptyStack => match other {
                Stack::NoStack => Rank::Above,
                Stack::EmptyStack => Rank::Same,
                Stack::Return(_) => Rank::Below,
            },
            Stack::Return(x) => match other {
                Stack::Return(y) => x.rank(y),
                _ => Rank::Above,
            },
        }
    }

    /// Whether two stacks are equal.
    pub fn same(&self, other: &Stack) -> (r: bool)
        ensures
            r == (*self == *other),
    {
        match self.order(other) {
            Rank::Same => true,
            _ => false,
        }
    }

    /// The part of the stack that starts at the first return location with
    /// address `addr`, if there is one.
    pub fn find(&self, addr: u64) -> (r: Option<Stack>)
        ensures
            r == self.spec_find(addr),
        decreases *self,
    {
        match self {
            Stack::Return(tgt) => {
                if addr == tgt.addr {
                    Some(self.dup())
                } else {
                    tgt.stack.find(addr)
                }
            },
            _ => None,
        }
    }

    /// Removes a loop through the first return location.
    pub fn deloop(self) -> (r: Stack)
        ensures
            r == self.spec_deloop(),
    {
        let found = match &self {
            Stack::Return(tgt) => tgt.stack.find(tgt.addr),
            _ => None,
        };
        match found {
            Some(new) => new,
            None => self,
        }
    }

    /// The stack cut off below `limit` return locations.
    pub fn relimited(&self, limit: usize) -> (r: Stack)
        ensures
            r == self.spec_relimit(limit as nat),
        decreases *self,
    {
        if limit == 0 {
            Stack::EmptyStack
        } else {
            match self {
                Stack::Return(tgt) => Stack::Return(
                    Box::new(
                        Loc {
                            file_name: tgt.file_name,
                            addr: tgt.addr,
                            stack: tgt.stack.relimited(limit - 1),
                        },
                    ),
                ),
                Stack::NoStack => Stack::NoStack,
                Stack::EmptyStack => Stack::EmptyStack,
            }
        }
    }

    /// Cuts the stack off below `limit` return locations.
    pub fn relimit(&mut self, limit: usize)
        ensures
            *final(self) == old(self).spec_relimit(limit as nat),
    {
        let cut = self.relimited(limit);
        *self = cut;
    }
}

/// A stack cut off below `limit` return locations holds at most `limit` of them.
pub proof fn lemma_relimit_depth(s: Stack, limit: nat)
    ensures
        s.spec_relimit(limit).depth() <= limit,
        !(s is NoStack) ==> !(s.spec_relimit(limit) is NoStack),
    decreases s,
{
    if limit > 0 {
        match s {
            Stack::Return(l) => {
                lemma_relimit_depth(l.stack, (limit - 1) as nat);
            },
            _ => {},
        }
    }
}

impl Loc {
    /// Whether the location carries call-stack context.
    pub fn is_stacked(&self) -> (r: bool)
        ensures
            r == !(self.stack is NoStack),
    {
        match self.stack {
            Stack::NoStack => false,
            _ => true,
        }
    }

    /// Whether two locations are equal.
    pub fn same(&self, other: &Loc) -> (r: bool)
        ensures
            r == (*self == *other),
    {
        match self.rank(other) {
            Rank::Same => true,
            _ => false,
        }
    }

    /// Places `self` against `other` in the order `loc_lt`.
    pub fn rank(&self, other: &Loc) -> (r: Rank)
        ensures
            (r == Rank::Below) == loc_lt(*self, *other),
            (r == Rank::Same) == (*self == *other),
            (r == Rank::Above) == loc_lt(*other, *self),
        decreases *self,
    {
        proof {
            lemma_loc_lt_irreflexive(*self);
            if loc_lt(*self, *other) && loc_lt(*other, *self) {
                lemma_loc_lt_transitive(*self, *other, *self);
            }
            InternedString::lt_irreflexive(self.file_name);
        }
        match self.file_name.order(&other.file_name) {
            Rank::Below => Rank::Below,
            Rank::Above => Rank::Above,
            Rank::Same => {
                if self.addr < other.addr {
                    Rank::Below
                } else if self.addr > other.addr {
                    Rank::Above
                } else {
                    self.stack.order(&other.stack)
                }
            },
        }
    }

    /// An exact copy of the location.
    pub fn copy(&self) -> (r: Loc)
        ensures
            r == *self,
        decreases *self,
    {
        Loc { file_name: self.file_name, addr: self.addr, stack: self.stack.dup() }
    }

    /// The location with the same file and address and the stack `stack`.
    pub fn with_stack(&self, stack: Stack) -> (r: Loc)
        ensures
            r == (Loc { file_name: self.file_name, addr: self.addr, stack }),
    {
        Loc { file_name: self.file_name, addr: self.addr, stack }
    }
}

impl Clone for Stack {
    fn clone(&self) -> (r: Stack)
        ensures
            r == *self,
    {
        self.dup()
    }
}

impl Clone for Loc {
    fn clone(&self) -> (r: Loc)
        ensures
            r == *self,
    {
        self.copy()
    }
}

impl StrictOrder for Loc {
    open spec fn lt(self, other: Loc) -> bool {
        loc_lt(self, other)
    }

    proof fn lt_irreflexive(x: Loc) {
        lemma_loc_lt_irreflexive(x);
        assert(x.lt(x) == loc_lt(x, x));
    }

    proof fn lt_transitive(x: Loc, y: Loc, z: Loc) {
        assert(x.lt(y) == loc_lt(x, y) && y.lt(z) == loc_lt(y, z) && x.lt(z) == loc_lt(x, z));
        lemma_loc_lt_transitive(x, y, z);
    }

    proof fn lt_total(x: Loc, y: Loc) {
        assert(x.lt(y) == loc_lt(x, y) && y.lt(x) == loc_lt(y, x));
        lemma_loc_lt_total(x, y);
    }
}

impl Key for Loc {
    fn order(&self, other: &Loc) -> (r: Rank) {
        self.rank(other)
    }

    fn dup(&self) -> (r: Loc) {
        self.copy()
    }
}

/// The set that holds the one name given.
pub fn singleton_string(i: &LoadSingletonStringIn) -> (r: Vec<LoadSingletonStringOut>)
    ensures
        r@.len() == 1,
        r@[0].names@.len() == 1,
        r@[0].names@[0]@ == i.name@,
{
    let mut names: Vec<String> = Vec::new();
    names.push(i.name.clone());
    let mut out: Vec<LoadSingletonStringOut> = Vec::new();
    out.push(LoadSingletonStringOut { names });
    out
}

/// The targets of the constant jumps that `stmts` may take from position
/// `start` on, and whether control may fall through its end.
pub fn stmt_succ(stmts: &Vec<Statement>, start: usize) -> (r: (Vec<u64>, bool))
    requires
        start <= stmts@.len(),
    ensures
        (r.0@, r.1) == stmts_succ(stmts@.subrange(start as int, stmts@.len() as int)),
    decreases stmts@, stmts@.len() - start,
{
    let ghost here = stmts@.subrange(start as int, stmts@.len() as int);
    if start == stmts.len() {
        return (Vec::new(), true);
    }
    proof {
        assert(here[0] == stmts@[start as int]);
        assert(here.drop_first() =~= stmts@.subrange(start + 1, stmts@.len() as int));
    }
    match &stmts[start] {
        Statement::Jump(Expression::Const(Some(v))) => {
            let mut t: Vec<u64> = Vec::new();
            t.push(*v);
            (t, false)
        },
        Statement::Jump(_) => (Vec::new(), false),
        Statement::While { body, .. } => {
            assert(body@.subrange(0, body@.len() as int) =~= body@);
            let (mut tgts, fall) = stmt_succ(body, 0);
            if fall {
                let (mut tgts2, fall2) = stmt_succ(stmts, start + 1);
                tgts.append(&mut tgts2);
                (tgts, fall2)
            } else {
                (tgts, fall)
            }
        },
        Statement::IfThenElse { then_clause, else_clause, .. } => {
            assert(then_clause@.subrange(0, then_clause@.len() as int) =~= then_clause@);
            assert(else_clause@.subrange(0, else_clause@.len() as int) =~= else_clause@);
            let (mut tgts, then_fall) = stmt_succ(then_clause, 0);
            let (mut else_tgts, else_fall) = stmt_succ(else_clause, 0);
            tgts.append(&mut else_tgts);
            if then_fall || else_fall {
                let (mut tgts2, fall2) = stmt_succ(stmts, start + 1);
                tgts.append(&mut tgts2);
                (tgts, fall2)
            } else {
                (tgts, false)
            }
        },
        _ => stmt_succ(stmts, start + 1),
    }
}

/// The addresses control may go to after an instruction with the semantics
/// `bil` that falls through to `fall`.
pub open spec fn succ_addrs(bil: Seq<Statement>, fall: u64) -> Seq<u64> {
    let (targets, falls) = stmts_succ(bil);
    if falls {
        targets.push(fall)
    } else {
        targets
    }
}

/// The stack of the successors of an instruction at a location with the
/// stack `src`: none where stacks are not tracked; for a call, the return
/// to `fall`, de-looped and cut to the maximal depth; otherwise `src`.
pub open spec fn succ_stack(src: Stack, fall: Loc, is_call: bool) -> Stack {
    if src is NoStack {
        Stack::NoStack
    } else if is_call {
        Stack::Return(Box::new(fall)).spec_deloop().spec_relimit(STACK_MAX_DEPTH as nat)
    } else {
        src
    }
}

/// The tuple for the successor at address `x` in the file of `fall`.
pub open spec fn succ_tuple(fall: Loc, stack: Stack, x: u64) -> LoadSemaSuccOut {
    LoadSemaSuccOut { dst: Loc { file_name: fall.file_name, addr: x, stack } }
}

/// The target `target` of a call from `call` through the pad `pad`, with the
/// stack it is entered with.
pub open spec fn adjusted_target(call: Loc, pad: Loc, target: Loc) -> Loc {
    Loc {
        file_name: target.file_name,
        addr: target.addr,
        stack: if call.stack is NoStack {
            Stack::NoStack
        } else {
            pad.stack
        },
    }
}

/// The successors of an instruction.
pub fn sema_succ(i: &LoadSemaSuccIn) -> (r: Vec<LoadSemaSuccOut>)
    ensures
        r@ == succ_addrs(i.bil@, i.fall.addr).map_values(
            |x: u64| succ_tuple(*i.fall, succ_stack(i.src.stack, *i.fall, i.is_call), x),
        ),
{
    assert(i.bil@.subrange(0, i.bil@.len() as int) =~= i.bil@);
    let (mut targets, fall) = stmt_succ(i.bil, 0);
    if fall {
        targets.push(i.fall.addr);
    }
    let stack = match &i.src.stack {
        Stack::NoStack => Stack::NoStack,
        s => {
            if i.is_call {
                let mut s = Stack::Return(Box::new(i.fall.copy())).deloop();
                s.relimit(STACK_MAX_DEPTH);
                s
            } else {
                s.dup()
            }
        },
    };
    let ghost f = |x: u64| succ_tuple(*i.fall, succ_stack(i.src.stack, *i.fall, i.is_call), x);
    let mut out: Vec<LoadSemaSuccOut> = Vec::new();
    let mut k: usize = 0;
    while k < targets.len()
        invariant
            k <= targets@.len(),
            stack == succ_stack(i.src.stack, *i.fall, i.is_call),
            out@ == targets@.subrange(0, k as int).map_values(f),
            forall|x: u64|
                #[trigger] f(x) == succ_tuple(
                    *i.fall,
                    succ_stack(i.src.stack, *i.fall, i.is_call),
                    x,
                ),
        decreases targets@.len() - k,
    {
        out.push(
            LoadSemaSuccOut {
                dst: Loc { file_name: i.fall.file_name, addr: targets[k], stack: stack.dup() },
            },
        );
        assert(out@ =~= targets@.subrange(0, k + 1).map_values(f));
        k += 1;
    }
    assert(targets@.subrange(0, k as int) =~= targets@);
    assert(out@ =~= succ_addrs(i.bil@, i.fall.addr).map_values(
        |x: u64| succ_tuple(*i.fall, succ_stack(i.src.stack, *i.fall, i.is_call), x),
    ));
    out
}

/// Whether some statement of `bil` jumps to an address that is no constant.
pub open spec fn has_computed_jump(bil: Seq<Statement>) -> bool {
    exists|k: int|
        0 <= k < bil.len() && (#[trigger] bil[k] matches Statement::Jump(e) && !(e is Const))
}

/// One tuple where the instruction jumps to a computed address, none otherwise.
pub fn is_computed_jump(i: &LoadIsComputedJumpIn) -> (r: Vec<LoadIsComputedJumpOut>)
    ensures
        r@.len() == if has_computed_jump(i.bil@) { 1nat } else { 0nat },
{
    let mut k: usize = 0;
    while k < i.bil.len()
        invariant
            k <= i.bil@.len(),
            forall|j: int|
                0 <= j < k ==> !(#[trigger] i.bil@[j] matches Statement::Jump(e) && !(e is Const)),
        decreases i.bil@.len() - k,
    {
        match &i.bil[k] {
            Statement::Jump(e) => {
                let is_const = match e {
                    Expression::Const(_) => true,
                    _ => false,
                };
                if !is_const {
                    let mut out: Vec<LoadIsComputedJumpOut> = Vec::new();
                    out.push(LoadIsComputedJumpOut {  });
                    assert(i.bil@[k as int] matches Statement::Jump(e) && !(e is Const));
                    return out;
                }
            },
            _ => {},
        }
        k += 1;
    }
    Vec::new()
}

/// Whether a function called `name` allocates.
pub open spec fn spec_malloc_name(name: Seq<char>) -> bool {
    has_substring(name, "malloc"@) || has_substring(name, "calloc"@) || name == "_Znam"@ || name
        == "_Znwm"@
}

/// Whether a function called `func_name` allocates.
pub fn malloc_name(func_name: &str) -> (r: bool)
    ensures
        r == spec_malloc_name(func_name@),
{
    contains_str(func_name, "malloc") || contains_str(func_name, "calloc") || str_eq(
        func_name,
        "_Znam",
    ) || str_eq(func_name, "_Znwm")
}

/// One tuple where the name is an allocator's, none otherwise.
pub fn is_malloc_name(i: &LoadIsMallocNameIn) -> (r: Vec<LoadIsMallocNameOut>)
    ensures
        r@.len() == if spec_malloc_name(i.func_name@) { 1nat } else { 0nat },
{
    let mut out: Vec<LoadIsMallocNameOut> = Vec::new();
    if malloc_name(i.func_name) {
        out.push(LoadIsMallocNameOut {  });
    }
    out
}

/// The argument that a function called `name` frees, if it frees one.
pub open spec fn freed_arg(name: Seq<char>) -> Option<usize> {
    if name == "free"@ || name == "g_free"@ || name == "_ZdaPv"@ || name == "_ZdlPvm"@ {
        Some(0usize)
    } else if name == "qfree"@ {
        Some(1usize)
    } else {
        None
    }
}

/// One tuple with the argument freed where the name is a deallocator's,
/// none otherwise.
pub fn is_free_name(i: &LoadIsFreeNameIn) -> (r: Vec<LoadIsFreeNameOut>)
    ensures
        match freed_arg(i.func_name@) {
            Some(n) => r@.len() == 1 && r@[0].args@ == seq![n],
            None => r@.len() == 0,
        },
{
    let s = i.func_name;
    let mut out: Vec<LoadIsFreeNameOut> = Vec::new();
    if str_eq(s, "free") || str_eq(s, "g_free") || str_eq(s, "_ZdaPv") || str_eq(s, "_ZdlPvm") {
        let mut args: Vec<usize> = Vec::new();
        args.push(0);
        assert(args@ =~= seq![0usize]);
        out.push(LoadIsFreeNameOut { args });
    } else if str_eq(s, "qfree") {
        let mut args: Vec<usize> = Vec::new();
        args.push(1);
        assert(args@ =~= seq![1usize]);
        out.push(LoadIsFreeNameOut { args });
    }
    out
}

/// Whether a function called `name` returns to its caller.
pub open spec fn returning_name(name: Seq<char>) -> bool {
    !(name == "abort"@ || name == "__stack_chk_fail"@ || name == "exit"@)
}

/// One tuple where a function of the name returns, none otherwise.
pub fn is_returning_name(i: &LoadIsReturningNameIn) -> (r: Vec<LoadIsReturningNameOut>)
    ensures
        r@.len() == if returning_name(i.func_name@) { 1nat } else { 0nat },
{
    let s = i.func_name;
    let mut out: Vec<LoadIsReturningNameOut> = Vec::new();
    if !(str_eq(s, "abort") || str_eq(s, "__stack_chk_fail") || str_eq(s, "exit")) {
        out.push(LoadIsReturningNameOut {  });
    }
    out
}

/// The target of a call with the stack it is entered with: none where the
/// call site carries none, else that of the pad.
pub fn call_site_stack(i: &LoadCallSiteStackIn) -> (r: Vec<LoadCallSiteStackOut>)
    ensures
        r@.len() == 1,
        r@[0].target_loc_adjusted == adjusted_target(*i.call_loc, *i.pad_loc, *i.target_loc),
{
    let stack = if !i.call_loc.is_stacked() {
        Stack::NoStack
    } else {
        i.pad_loc.stack.dup()
    };
    let mut out: Vec<LoadCallSiteStackOut> = Vec::new();
    out.push(LoadCallSiteStackOut { target_loc_adjusted: i.target_loc.with_stack(stack) });
    out
}

/// The location as a singleton where it carries no stack, nothing otherwise.
pub fn called_unstacked(i: &LoadCalledUnstackedIn) -> (r: Vec<LoadCalledUnstackedOut>)
    ensures
        if i.loc.stack is NoStack {
            r@.len() == 1 && r@[0].locs@ == seq![*i.loc]
        } else {
            r@.len() == 0
        },
{
    let mut out: Vec<LoadCalledUnstackedOut> = Vec::new();
    if !i.loc.is_stacked() {
        let mut locs: Vec<Loc> = Vec::new();
        locs.push(i.loc.copy());
        assert(locs@ =~= seq![*i.loc]);
        out.push(LoadCalledUnstackedOut { locs });
    }
    out
}

/// Whether `locs` holds `loc`.
pub fn locs_contain(locs: &Vec<Loc>, loc: &Loc) -> (r: bool)
    ensures
        r == locs@.contains(*loc),
{
    let mut k: usize = 0;
    while k < locs.len()
        invariant
            k <= locs@.len(),
            forall|j: int| 0 <= j < k ==> locs@[j] != *loc,
        decreases locs@.len() - k,
    {
        if locs[k].same(loc) {
            assert(locs@[k as int] == *loc);
            return true;
        }
        k += 1;
    }
    false
}

/// One tuple where the location carries no stack and is not among those
/// called without one, none otherwise.
pub fn called_filter(i: &LoadCalledFilterIn) -> (r: Vec<LoadCalledFilterOut>)
    ensures
        r@.len() == if i.locs@.contains(*i.loc) || !(i.loc.stack is NoStack) {
            0nat
        } else {
            1nat
        },
{
    let mut out: Vec<LoadCalledFilterOut> = Vec::new();
    if !(locs_contain(i.locs, i.loc) || i.loc.is_stacked()) {
        out.push(LoadCalledFilterOut {  });
    }
    out
}

/// What a line of the listing of the procedure linkage table says: the
/// address in base sixteen up to the first space, and the name that
/// follows the first character of the next word, up to an at sign or the
/// end of the word. None where the line has no space, the address does not
/// read as a number, or the word after it is empty.
pub open spec fn plt_line(s: Seq<char>) -> Option<(u64, Seq<char>)> {
    let sp = next_char(s, 0, ' ');
    if sp >= s.len() {
        None
    } else {
        match parse_hex_spec(s.subrange(0, sp)) {
            None => None,
            Some(addr) => {
                let word_end = next_char(s, sp + 1, ' ');
                if word_end == sp + 1 {
                    None
                } else {
                    let at = next_char(s, sp + 2, '@');
                    let name_end = if at < word_end {
                        at
                    } else {
                        word_end
                    };
                    Some((addr, s.subrange(sp + 2, name_end)))
                }
            },
        }
    }
}

/// Reads a line of the listing of the procedure linkage table.
pub fn parse_plt_line(line: &str) -> (r: Option<(u64, String)>)
    ensures
        match r {
            Some(e) => plt_line(line@) == Some((e.0, e.1@)),
            None => plt_line(line@) is None,
        },
{
    let cs = chars_of(line);
    let n = cs.len();
    let sp = find_char(&cs, 0, ' ');
    if sp >= n {
        return None;
    }
    let addr = match parse_hex(line.substring_char(0, sp)) {
        Some(a) => a,
        None => {
            return None;
        },
    };
    let word_end = find_char(&cs, sp + 1, ' ');
    if word_end == sp + 1 {
        return None;
    }
    let at = find_char(&cs, sp + 2, '@');
    let name_end = if at < word_end { at } else { word_end };
    let name = line.substring_char(sp + 2, name_end).to_owned();
    Some((addr, name))
}

/// What the listing `s` says from position `start` on, line by line and
/// empty lines left out; none where a line does not read.
pub open spec fn plt_lines(s: Seq<char>, start: int) -> Option<Seq<(u64, Seq<char>)>>
    decreases s.len() - start,
{
    if start < 0 || start >= s.len() {
        Some(Seq::empty())
    } else {
        let found = next_char(s, start, '\n');
        let end = if found < start {
            start
        } else {
            found
        };
        let after = if end >= s.len() {
            Some(Seq::empty())
        } else {
            plt_lines(s, end + 1)
        };
        match after {
            None => None,
            Some(rest) => if end == start {
                Some(rest)
            } else {
                match plt_line(s.subrange(start, end)) {
                    Some(e) => Some(seq![e] + rest),
                    None => None,
                }
            },
        }
    }
}

/// Reads the listing of the procedure linkage table from position `start` on.
pub fn parse_plt_from(out: &str, cs: &Vec<char>, start: usize) -> (r: Option<Vec<(u64, String)>>)
    requires
        cs@ == out@,
        start <= cs@.len(),
    ensures
        match r {
            Some(v) => plt_lines(out@, start as int) matches Some(w) && v@.len() == w.len()
                && forall|k: int|
                0 <= k < v@.len() ==> (#[trigger] v@[k]).0 == w[k].0 && v@[k].1@ == w[k].1,
            None => plt_lines(out@, start as int) is None,
        },
    decreases cs@.len() - start,
{
    if start >= cs.len() {
        return Some(Vec::new());
    }
    let end = find_char(cs, start, '\n');
    let rest = if end < cs.len() {
        parse_plt_from(out, cs, end + 1)
    } else {
        Some(Vec::new())
    };
    let mut rest = match rest {
        Some(v) => v,
        None => {
            return None;
        },
    };
    if end == start {
        return Some(rest);
    }
    let ghost tail = rest@;
    match parse_plt_line(out.substring_char(start, end)) {
        Some(e) => {
            let ghost head = (e.0, e.1@);
            let mut v: Vec<(u64, String)> = Vec::new();
            v.push(e);
            v.append(&mut rest);
            proof {
                let w_rest = if end >= out@.len() {
                    Seq::empty()
                } else {
                    plt_lines(out@, end + 1).unwrap()
                };
                let w = seq![head] + w_rest;
                assert(plt_lines(out@, start as int) == Some(w));
                assert forall|k: int| 0 <= k < v@.len() implies (#[trigger] v@[k]).0 == w[k].0
                    && v@[k].1@ == w[k].1 by {
                    if k > 0 {
                        assert(v@[k] == tail[k - 1]);
                        assert(w[k] == w_rest[k - 1]);
                    }
                }
            }
            Some(v)
        },
        None => None,
    }
}

/// Reads the listing of the procedure linkage table: for each line that is
/// not empty the address of the pad and the name it stands for. None where
/// a line does not read.
pub fn parse_plt(out: &str) -> (r: Option<Vec<(u64, String)>>)
    ensures
        match r {
            Some(v) => plt_lines(out@, 0) matches Some(w) && v@.len() == w.len() && forall|k: int|
                0 <= k < v@.len() ==> (#[trigger] v@[k]).0 == w[k].0 && v@[k].1@ == w[k].1,
            None => plt_lines(out@, 0) is None,
        },
{
    let cs = chars_of(out);
    parse_plt_from(out, &cs, 0)
}

} // verus!
