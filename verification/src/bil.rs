//! The intermediate language that instructions are lifted to, as far as the
//! analysis reads it.

use vstd::prelude::*;

verus! {

/// A binary operation.
#[derive(Clone, Copy, Debug, PartialEq, Eq, Structural, PartialOrd, Ord, Hash)]
pub enum BinOp {
    SignedLessEqual,
    SignedLess,
    LessEqual,
    Less,
    NotEqual,
    Equal,
    Xor,
    Or,
    And,
    ArithmeticRightShift,
    RightShift,
    LeftShift,
    SignedModulo,
    Modulo,
    SignedDivide,
    Divide,
    Multiply,
    Subtract,
    Add,
}

/// A unary operation.
#[derive(Clone, Copy, Debug, PartialEq, Eq, Structural, PartialOrd, Ord, Hash)]
pub enum UnOp {
    Not,
    Neg,
}

/// The kind of a cast to another width.
#[derive(Clone, Copy, Debug, PartialEq, Eq, Structural, PartialOrd, Ord, Hash)]
pub enum Cast {
    Low,
    High,
    Signed,
    Unsigned,
}

/// A byte order.
#[derive(Clone, Copy, Debug, PartialEq, Eq, Structural, PartialOrd, Ord, Hash)]
pub enum Endian {
    Little,
    Big,
}

/// The shape of the value a variable holds.
#[derive(Clone, Copy, Debug, PartialEq, Eq, Structural, PartialOrd, Ord, Hash)]
pub enum Type {
    /// A bit vector of the given width.
    Immediate(u16),
    /// A memory with the given address and cell widths.
    Memory { addr_size: u16, cell_size: u16 },
}

/// A variable of the intermediate language.
#[derive(Debug, PartialEq, Eq, PartialOrd, Ord, Hash)]
pub struct Variable {
    /// The variable's name.
    pub name: String,
    /// The shape of the value it holds.
    pub type_: Type,
    /// Whether the variable lives for one instruction only.
    pub tmp: bool,
    /// The index that tells definitions of one register apart.
    pub index: u64,
}

/// An expression of the intermediate language.
#[derive(Debug, PartialEq, Eq, PartialOrd, Ord, Hash)]
#[allow(inconsistent_fields)]
pub enum Expression {
    /// The value of a variable.
    Var(Variable),
    /// A constant; `None` where it does not fit 64 bits.
    Const(Option<u64>),
    /// A load from `memory` at `index`.
    Load { memory: Box<Expression>, index: Box<Expression>, endian: Endian, size: u16 },
    /// The memory `memory` with `value` stored at `index`.
    Store {
        memory: Box<Expression>,
        index: Box<Expression>,
        value: Box<Expression>,
        endian: Endian,
        size: u16,
    },
    /// A binary operation.
    BinOp { op: BinOp, lhs: Box<Expression>, rhs: Box<Expression> },
    /// A unary operation.
    UnOp { op: UnOp, arg: Box<Expression> },
    /// A cast to another width.
    Cast { kind: Cast, width: u16, arg: Box<Expression> },
    /// A scoped binding.
    Let { bound_var: Variable, bound_expr: Box<Expression>, body_expr: Box<Expression> },
    /// An unknown value.
    Unknown { description: String, type_: Type },
    /// A choice between two values.
    IfThenElse { cond: Box<Expression>, true_expr: Box<Expression>, false_expr: Box<Expression> },
    /// A range of the bits of a value.
    Extract { low_bit: u16, high_bit: u16, arg: Box<Expression> },
    /// Two bit vectors joined.
    Concat { low: Box<Expression>, high: Box<Expression> },
}

/// A statement of the intermediate language.
#[derive(Debug, PartialEq, Eq, PartialOrd, Ord, Hash)]
#[allow(inconsistent_fields)]
pub enum Statement {
    /// A transfer of control to the address the expression gives.
    Jump(Expression),
    /// A transition that cannot be modelled.
    Special,
    /// A CPU exception.
    CPUException(u64),
    /// An assignment of `rhs` to `lhs`.
    Move { lhs: Variable, rhs: Expression },
    /// A loop.
    While { cond: Expression, body: Vec<Statement> },
    /// A branch.
    IfThenElse { cond: Expression, then_clause: Vec<Statement>, else_clause: Vec<Statement> },
}

impl Variable {
    /// An exact copy of the variable.
    pub fn dup(&self) -> (r: Variable)
        ensures
            r == *self,
    {
        Variable { name: self.name.clone(), type_: self.type_, tmp: self.tmp, index: self.index }
    }
}

impl Clone for Variable {
    fn clone(&self) -> (r: Variable)
        ensures
            r == *self,
    {
        self.dup()
    }
}

impl Expression {
    /// An exact copy of the expression.
    pub fn dup(&self) -> (r: Expression)
        ensures
            r == *self,
        decreases *self,
    {
        match self {
            Expression::Var(v) => Expression::Var(v.dup()),
            Expression::Const(k) => Expression::Const(*k),
            Expression::Load { memory, index, endian, size } => Expression::Load {
                memory: Box::new(memory.dup()),
                index: Box::new(index.dup()),
                endian: *endian,
                size: *size,
            },
            Expression::Store { memory, index, value, endian, size } => Expression::Store {
                memory: Box::new(memory.dup()),
                index: Box::new(index.dup()),
                value: Box::new(value.dup()),
                endian: *endian,
                size: *size,
            },
            Expression::BinOp { op, lhs, rhs } => Expression::BinOp {
                op: *op,
                lhs: Box::new(lhs.dup()),
                rhs: Box::new(rhs.dup()),
            },
            Expression::UnOp { op, arg } => Expression::UnOp { op: *op, arg: Box::new(arg.dup()) },
            Expression::Cast { kind, width, arg } => Expression::Cast {
                kind: *kind,
                width: *width,
                arg: Box::new(arg.dup()),
            },
            Expression::Let { bound_var, bound_expr, body_expr } => Expression::Let {
                bound_var: bound_var.dup(),
                bound_expr: Box::new(bound_expr.dup()),
                body_expr: Box::new(body_expr.dup()),
            },
            Expression::Unknown { description, type_ } => Expression::Unknown {
                description: description.clone(),
                type_: *type_,
            },
            Expression::IfThenElse { cond, true_expr, false_expr } => Expression::IfThenElse {
                cond: Box::new(cond.dup()),
                true_expr: Box::new(true_expr.dup()),
                false_expr: Box::new(false_expr.dup()),
            },
            Expression::Extract { low_bit, high_bit, arg } => Expression::Extract {
                low_bit: *low_bit,
                high_bit: *high_bit,
                arg: Box::new(arg.dup()),
            },
            Expression::Concat { low, high } => Expression::Concat {
                low: Box::new(low.dup()),
                high: Box::new(high.dup()),
            },
        }
    }
}

impl Clone for Expression {
    fn clone(&self) -> (r: Expression)
        ensures
            r == *self,
    {
        self.dup()
    }
}

/// Whether `a` and `b` are the same statement: of one kind, with the same
/// expressions and, one by one, the same statements within.
pub open spec fn same_stmt(a: Statement, b: Statement) -> bool
    decreases a,
{
    match (a, b) {
        (Statement::Jump(x), Statement::Jump(y)) => x == y,
        (Statement::Special, Statement::Special) => true,
        (Statement::CPUException(x), Statement::CPUException(y)) => x == y,
        (Statement::Move { lhs: l1, rhs: r1 }, Statement::Move { lhs: l2, rhs: r2 }) => l1 == l2
            && r1 == r2,
        (Statement::While { cond: c1, body: b1 }, Statement::While { cond: c2, body: b2 }) => c1
            == c2 && same_stmts(b1@, b2@),
        (
            Statement::IfThenElse { cond: c1, then_clause: t1, else_clause: e1 },
            Statement::IfThenElse { cond: c2, then_clause: t2, else_clause: e2 },
        ) => c1 == c2 && same_stmts(t1@, t2@) && same_stmts(e1@, e2@),
        _ => false,
    }
}

/// Whether `a` and `b` are, one by one, the same statements.
pub open spec fn same_stmts(a: Seq<Statement>, b: Seq<Statement>) -> bool
    decreases a,
{
    if a.len() == 0 {
        b.len() == 0
    } else {
        b.len() > 0 && same_stmt(a[0], b[0]) && same_stmts(a.drop_first(), b.drop_first())
    }
}

impl Statement {
    /// An exact copy of the statement.
    pub fn dup(&self) -> (r: Statement)
        ensures
            same_stmt(*self, r),
        decreases *self,
    {
        match self {
            Statement::Jump(e) => Statement::Jump(e.dup()),
            Statement::Special => Statement::Special,
            Statement::CPUException(n) => Statement::CPUException(*n),
            Statement::Move { lhs, rhs } => Statement::Move { lhs: lhs.dup(), rhs: rhs.dup() },
            Statement::While { cond, body } => {
                assert(body@.subrange(0, body@.len() as int) =~= body@);
                Statement::While { cond: cond.dup(), body: Statement::dup_from(body, 0) }
            },
            Statement::IfThenElse { cond, then_clause, else_clause } => {
                assert(then_clause@.subrange(0, then_clause@.len() as int) =~= then_clause@);
                assert(else_clause@.subrange(0, else_clause@.len() as int) =~= else_clause@);
                Statement::IfThenElse {
                    cond: cond.dup(),
                    then_clause: Statement::dup_from(then_clause, 0),
                    else_clause: Statement::dup_from(else_clause, 0),
                }
            },
        }
    }

    /// An exact copy of the statements `stmts` from position `start` on.
    pub fn dup_from(stmts: &Vec<Statement>, start: usize) -> (r: Vec<Statement>)
        requires
            start <= stmts@.len(),
        ensures
            same_stmts(stmts@.subrange(start as int, stmts@.len() as int), r@),
        decreases stmts@, stmts@.len() - start,
    {
        let ghost here = stmts@.subrange(start as int, stmts@.len() as int);
        if start == stmts.len() {
            return Vec::new();
        }
        proof {
            assert(here[0] == stmts@[start as int]);
            assert(here.drop_first() =~= stmts@.subrange(start + 1, stmts@.len() as int));
        }
        let first = stmts[start].dup();
        let rest = Statement::dup_from(stmts, start + 1);
        let mut out: Vec<Statement> = Vec::new();
        out.push(first);
        let mut rest = rest;
        let ghost tail = rest@;
        out.append(&mut rest);
        proof {
            assert(out@[0] == first);
            assert(out@.drop_first() =~= tail);
        }
        out
    }
}

impl Clone for Statement {
    fn clone(&self) -> (r: Statement)
        ensures
            same_stmt(*self, r),
    {
        self.dup()
    }
}

/// The targets of the constant jumps that `stmts` may take, in order, and
/// whether control may fall through its end.
pub open spec fn stmts_succ(stmts: Seq<Statement>) -> (Seq<u64>, bool)
    decreases stmts,
{
    if stmts.len() == 0 {
        (Seq::empty(), true)
    } else {
        let rest = stmts.drop_first();
        match stmts[0] {
            Statement::Jump(Expression::Const(Some(v))) => (seq![v], false),
            Statement::Jump(_) => (Seq::empty(), false),
            Statement::While { body, .. } => {
                let (tgts, fall) = stmts_succ(body@);
                if fall {
                    let (tgts2, fall2) = stmts_succ(rest);
                    (tgts + tgts2, fall2)
                } else {
                    (tgts, fall)
                }
            },
            Statement::IfThenElse { then_clause, else_clause, .. } => {
                let (t, tf) = stmts_succ(then_clause@);
                let (e, ef) = stmts_succ(else_clause@);
                if tf || ef {
                    let (tgts2, fall2) = stmts_succ(rest);
                    (t + e + tgts2, fall2)
                } else {
                    (t + e, false)
                }
            },
            _ => stmts_succ(rest),
        }
    }
}

} // verus!
