//! Variable-sensitive alias analysis and use-after-free detection over
//! lifted machine code: the data model, the per-instruction transfer
//! function over points-to states, and the functions a bottom-up rule
//! engine applies to its tuples.

use vstd::prelude::*;

pub mod bil;
pub mod constraints;
pub mod context;
pub mod convert;
pub mod datalog;
pub mod effect;
pub mod field_map;
pub mod flow;
pub mod fmt_str;
pub mod interned_string;
pub mod live;
pub mod load;
pub mod measurement;
pub mod order;
pub mod points_to;
pub mod printers;
pub mod regs;
pub mod sorted_map;
pub mod sorted_set;
pub mod text;
pub mod uaf;
pub mod use_def;
pub mod var;
pub mod var_ref;

verus! {

/// The kind of location the dataflow analysis is parameterised by.
#[derive(Clone, Copy, Debug, PartialEq, Eq, Structural)]
pub enum LocType {
    /// A location is an instruction address alone.
    Addr,
    /// A location is an instruction address with a call stack of bounded depth.
    AddrAndStack,
}

/// How to run the use-after-free analysis.
#[derive(Clone, Copy, Debug, PartialEq, Eq, Structural)]
pub struct Config {
    /// Analysis sensitivity.
    pub loc_type: LocType,
    /// When set, the inputs are only loaded and no analysis is performed.
    pub load_only: bool,
    /// When set, argument registers that are live but nowhere defined at a
    /// function's entry are initialised to a synthetic region.
    pub undef_hack: bool,
}

impl Config {
    /// The default configuration for context-sensitive analysis.
    pub fn context_sensitive() -> (c: Config)
        ensures
            c == (Config { loc_type: LocType::AddrAndStack, load_only: false, undef_hack: false }),
    {
        Config { loc_type: LocType::AddrAndStack, load_only: false, undef_hack: false }
    }

    /// The default configuration for context-insensitive analysis.
    pub fn context_insensitive() -> (c: Config)
        ensures
            c == (Config { loc_type: LocType::Addr, load_only: false, undef_hack: false }),
    {
        Config { loc_type: LocType::Addr, load_only: false, undef_hack: false }
    }

    /// Whether the configuration implies flow sensitivity.
    pub fn uses_flow(self) -> (b: bool)
        ensures
            b == !self.load_only,
    {
        !self.load_only
    }

    /// Whether the configuration implies context sensitivity.
    pub fn uses_ctx(self) -> (b: bool)
        ensures
            b == (self.loc_type == LocType::AddrAndStack),
    {
        match self.loc_type {
            LocType::AddrAndStack => true,
            LocType::Addr => false,
        }
    }

    /// Whether undefined arguments are given a synthetic region at entry.
    pub fn defines_undef(self) -> (b: bool)
        ensures
            b == self.undef_hack,
    {
        self.undef_hack
    }
}

} // verus!
