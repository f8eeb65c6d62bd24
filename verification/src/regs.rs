//! The general-purpose registers and the calling convention.

use vstd::prelude::*;
use crate::interned_string::str_eq;
use crate::order::{Key, Rank, StrictOrder};

verus! {

/// A general-purpose register.
#[derive(Clone, Copy, Debug, PartialEq, Eq, Structural, PartialOrd, Ord, Hash)]
pub enum Reg {
    RAX,
    RBX,
    RCX,
    RDX,
    RSP,
    RBP,
    RSI,
    RDI,
    R8,
    R9,
    R10,
    R11,
    R12,
    R13,
    R14,
    R15,
}

/// The register a function's result is returned in.
pub const RET_REG: Reg = Reg::RAX;

/// The registers that carry the first six arguments, in order.
pub open spec fn spec_args() -> Seq<Reg> {
    seq![Reg::RDI, Reg::RSI, Reg::RDX, Reg::RCX, Reg::R8, Reg::R9]
}

/// The registers a call may overwrite.
pub open spec fn spec_caller_saved() -> Seq<Reg> {
    seq![Reg::RAX, Reg::RCX, Reg::RDX, Reg::R8, Reg::R9, Reg::R10, Reg::R11]
}

/// The registers that carry the first six arguments, in order.
pub fn args() -> (r: Vec<Reg>)
    ensures
        r@ == spec_args(),
{
    let r = vec![Reg::RDI, Reg::RSI, Reg::RDX, Reg::RCX, Reg::R8, Reg::R9];
    assert(r@ =~= spec_args());
    r
}

/// The registers a call may overwrite.
pub fn caller_saved() -> (r: Vec<Reg>)
    ensures
        r@ == spec_caller_saved(),
{
    let r = vec![Reg::RAX, Reg::RCX, Reg::RDX, Reg::R8, Reg::R9, Reg::R10, Reg::R11];
    assert(r@ =~= spec_caller_saved());
    r
}

/// Whether `r` carries one of the first six arguments.
pub fn is_arg(r: Reg) -> (b: bool)
    ensures
        b == spec_args().contains(r),
{
    let b = match r {
        Reg::RDI | Reg::RSI | Reg::RDX | Reg::RCX | Reg::R8 | Reg::R9 => true,
        _ => false,
    };
    proof {
        let a = spec_args();
        if b {
            assert(a[0] == Reg::RDI && a[1] == Reg::RSI && a[2] == Reg::RDX && a[3] == Reg::RCX
                && a[4] == Reg::R8 && a[5] == Reg::R9);
        }
    }
    b
}

/// Whether a call may overwrite `r`.
pub fn is_caller_saved(r: Reg) -> (b: bool)
    ensures
        b == spec_caller_saved().contains(r),
{
    let b = match r {
        Reg::RAX | Reg::RCX | Reg::RDX | Reg::R8 | Reg::R9 | Reg::R10 | Reg::R11 => true,
        _ => false,
    };
    proof {
        let a = spec_caller_saved();
        if b {
            assert(a[0] == Reg::RAX && a[1] == Reg::RCX && a[2] == Reg::RDX && a[3] == Reg::R8
                && a[4] == Reg::R9 && a[5] == Reg::R10 && a[6] == Reg::R11);
        }
    }
    b
}

/// The register called `name`, if there is one.
pub open spec fn reg_of_name(name: Seq<char>) -> Option<Reg> {
    if name == "RAX"@ {
        Some(Reg::RAX)
    } else if name == "RBX"@ {
        Some(Reg::RBX)
    } else if name == "RCX"@ {
        Some(Reg::RCX)
    } else if name == "RDX"@ {
        Some(Reg::RDX)
    } else if name == "RSP"@ {
        Some(Reg::RSP)
    } else if name == "RBP"@ {
        Some(Reg::RBP)
    } else if name == "RSI"@ {
        Some(Reg::RSI)
    } else if name == "RDI"@ {
        Some(Reg::RDI)
    } else if name == "R8"@ {
        Some(Reg::R8)
    } else if name == "R9"@ {
        Some(Reg::R9)
    } else if name == "R10"@ {
        Some(Reg::R10)
    } else if name == "R11"@ {
        Some(Reg::R11)
    } else if name == "R12"@ {
        Some(Reg::R12)
    } else if name == "R13"@ {
        Some(Reg::R13)
    } else if name == "R14"@ {
        Some(Reg::R14)
    } else if name == "R15"@ {
        Some(Reg::R15)
    } else {
        None
    }
}

impl Reg {
    /// The position of the register in the declaration order.
    pub open spec fn spec_ordinal(self) -> int {
        match self {
            Reg::RAX => 0,
            Reg::RBX => 1,
            Reg::RCX => 2,
            Reg::RDX => 3,
            Reg::RSP => 4,
            Reg::RBP => 5,
            Reg::RSI => 6,
            Reg::RDI => 7,
            Reg::R8 => 8,
            Reg::R9 => 9,
            Reg::R10 => 10,
            Reg::R11 => 11,
            Reg::R12 => 12,
            Reg::R13 => 13,
            Reg::R14 => 14,
            Reg::R15 => 15,
        }
    }

    /// The position of the register in the declaration order.
    pub fn ordinal(&self) -> (n: u8)
        ensures
            n == self.spec_ordinal(),
    {
        match self {
            Reg::RAX => 0,
            Reg::RBX => 1,
            Reg::RCX => 2,
            Reg::RDX => 3,
            Reg::RSP => 4,
            Reg::RBP => 5,
            Reg::RSI => 6,
            Reg::RDI => 7,
            Reg::R8 => 8,
            Reg::R9 => 9,
            Reg::R10 => 10,
            Reg::R11 => 11,
            Reg::R12 => 12,
            Reg::R13 => 13,
            Reg::R14 => 14,
            Reg::R15 => 15,
        }
    }

    /// The register called `name`, if there is one.
    pub fn from_name(name: &str) -> (r: Option<Reg>)
        ensures
            r == reg_of_name(name@),
    {
        if str_eq(name, "RAX") {
            Some(Reg::RAX)
        } else if str_eq(name, "RBX") {
            Some(Reg::RBX)
        } else if str_eq(name, "RCX") {
            Some(Reg::RCX)
        } else if str_eq(name, "RDX") {
            Some(Reg::RDX)
        } else if str_eq(name, "RSP") {
            Some(Reg::RSP)
        } else if str_eq(name, "RBP") {
            Some(Reg::RBP)
        } else if str_eq(name, "RSI") {
            Some(Reg::RSI)
        } else if str_eq(name, "RDI") {
            Some(Reg::RDI)
        } else if str_eq(name, "R8") {
            Some(Reg::R8)
        } else if str_eq(name, "R9") {
            Some(Reg::R9)
        } else if str_eq(name, "R10") {
            Some(Reg::R10)
        } else if str_eq(name, "R11") {
            Some(Reg::R11)
        } else if str_eq(name, "R12") {
            Some(Reg::R12)
        } else if str_eq(name, "R13") {
            Some(Reg::R13)
        } else if str_eq(name, "R14") {
            Some(Reg::R14)
        } else if str_eq(name, "R15") {
            Some(Reg::R15)
        } else {
            None
        }
    }

    /// The register's name.
    pub fn name(&self) -> (s: &'static str)
        ensures
            reg_of_name(s@) == Some(*self),
    {
        proof {
            reveal_strlit("RAX");
            reveal_strlit("RBX");
            reveal_strlit("RCX");
            reveal_strlit("RDX");
            reveal_strlit("RSP");
            reveal_strlit("RBP");
            reveal_strlit("RSI");
            reveal_strlit("RDI");
            reveal_strlit("R8");
            reveal_strlit("R9");
            reveal_strlit("R10");
            reveal_strlit("R11");
            reveal_strlit("R12");
            reveal_strlit("R13");
            reveal_strlit("R14");
            reveal_strlit("R15");
        }
        let s = match self {
            Reg::RAX => "RAX",
            Reg::RBX => "RBX",
            Reg::RCX => "RCX",
            Reg::RDX => "RDX",
            Reg::RSP => "RSP",
            Reg::RBP => "RBP",
            Reg::RSI => "RSI",
            Reg::RDI => "RDI",
            Reg::R8 => "R8",
            Reg::R9 => "R9",
            Reg::R10 => "R10",
            Reg::R11 => "R11",
            Reg::R12 => "R12",
            Reg::R13 => "R13",
            Reg::R14 => "R14",
            Reg::R15 => "R15",
        };
        proof {
            let a = "RAX"@; let b = "RBX"@; let c = "RCX"@; let d = "RDX"@;
            let e = "RSP"@; let f = "RBP"@; let g = "RSI"@; let h = "RDI"@;
            let i = "R8"@; let j = "R9"@; let k = "R10"@; let l = "R11"@;
            let m = "R12"@; let n = "R13"@; let o = "R14"@; let p = "R15"@;
            assert(a[1] == 'A' && b[1] == 'B' && c[1] == 'C' && d[1] == 'D');
            assert(e[1] == 'S' && e[2] == 'P' && f[1] == 'B' && f[2] == 'P');
            assert(g[1] == 'S' && g[2] == 'I' && h[1] == 'D' && h[2] == 'I');
            assert(i[1] == '8' && j[1] == '9' && i.len() == 2 && j.len() == 2);
            assert(k[2] == '0' && l[2] == '1' && m[2] == '2' && n[2] == '3' && o[2] == '4'
                && p[2] == '5');
            assert(k[1] == '1' && l[1] == '1' && m[1] == '1' && n[1] == '1' && o[1] == '1'
                && p[1] == '1');
            assert(b[2] == 'X' && c[2] == 'X' && d[2] == 'X' && a[2] == 'X');
        }
        s
    }
}

impl StrictOrder for Reg {
    open spec fn lt(self, other: Reg) -> bool {
        self.spec_ordinal() < other.spec_ordinal()
    }

    proof fn lt_irreflexive(x: Reg) {
    }

    proof fn lt_transitive(x: Reg, y: Reg, z: Reg) {
    }

    proof fn lt_total(x: Reg, y: Reg) {
    }
}

impl Key for Reg {
    fn order(&self, other: &Reg) -> (r: Rank) {
        let a = self.ordinal();
        let b = other.ordinal();
        if a < b {
            Rank::Below
        } else if a == b {
            Rank::Same
        } else {
            Rank::Above
        }
    }

    fn dup(&self) -> (r: Reg) {
        *self
    }
}

} // verus!
