//! The variables whose dereference at an instruction is a use.

use vstd::prelude::*;
use crate::constraints::generation::{ExtractMoveVar, extract_var_use, walk_list};
use crate::convert::to_u64;
use crate::datalog::{UafReadsVarsIn, UafReadsVarsOut, UafUseVarsIn, UafUseVarsOut};
use crate::load::{Loc, loc_lt};
use crate::order::{Key, Rank, StrictOrder};
use crate::sorted_set::{SortedSet, elements};
use crate::var::Var;

verus! {

/// The variables that the instruction dereferences.
pub fn reads_vars(i: &UafReadsVarsIn) -> (r: Vec<UafReadsVarsOut>)
    ensures
        r@.len() == walk_list(ExtractMoveVar, i.bil@, *i.loc, *i.base, Map::empty()).0.len(),
        forall|k: int|
            0 <= k < r@.len() ==> (#[trigger] r@[k]).v == walk_list(
                ExtractMoveVar,
                i.bil@,
                *i.loc,
                *i.base,
                Map::empty(),
            ).0[k],
{
    let vars = extract_var_use(i.bil, i.loc, i.base);
    let mut out: Vec<UafReadsVarsOut> = Vec::new();
    let mut k: usize = 0;
    while k < vars.len()
        invariant
            k <= vars@.len(),
            out@.len() == k,
            forall|j: int| 0 <= j < k ==> (#[trigger] out@[j]).v == vars@[j],
        decreases vars@.len() - k,
    {
        out.push(UafReadsVarsOut { v: vars[k].copy() });
        k += 1;
    }
    out
}

/// The register as a variable.
pub fn use_vars(i: &UafUseVarsIn) -> (r: Vec<UafUseVarsOut>)
    ensures
        r@.len() == 1,
        r@[0].v == (Var::Register { register: *i.r }),
{
    let mut out: Vec<UafUseVarsOut> = Vec::new();
    out.push(UafUseVarsOut { v: Var::Register { register: *i.r } });
    out
}

/// A use after free: what was freed at `free` may be used at `use_`.
#[derive(Debug, PartialEq, Eq, PartialOrd, Ord, Hash)]
pub struct UafResult {
    pub free: Loc,
    pub use_: Loc,
}

/// The addresses of a use after free.
#[derive(Clone, Copy, Debug, PartialEq, Eq, Structural, PartialOrd, Ord, Hash)]
pub struct AddrPair {
    pub free: u64,
    pub use_: u64,
}

impl StrictOrder for AddrPair {
    open spec fn lt(self, other: AddrPair) -> bool {
        self.free < other.free || (self.free == other.free && self.use_ < other.use_)
    }

    proof fn lt_irreflexive(x: AddrPair) {
    }

    proof fn lt_transitive(x: AddrPair, y: AddrPair, z: AddrPair) {
    }

    proof fn lt_total(x: AddrPair, y: AddrPair) {
    }
}

impl Key for AddrPair {
    fn order(&self, other: &AddrPair) -> (r: Rank) {
        if self.free < other.free {
            Rank::Below
        } else if self.free > other.free {
            Rank::Above
        } else if self.use_ < other.use_ {
            Rank::Below
        } else if self.use_ > other.use_ {
            Rank::Above
        } else {
            Rank::Same
        }
    }

    fn dup(&self) -> (r: AddrPair) {
        *self
    }
}

/// The strict order on results: by the free, then by the use.
pub open spec fn result_lt(a: UafResult, b: UafResult) -> bool {
    loc_lt(a.free, b.free) || (a.free == b.free && loc_lt(a.use_, b.use_))
}

impl StrictOrder for UafResult {
    open spec fn lt(self, other: UafResult) -> bool {
        result_lt(self, other)
    }

    proof fn lt_irreflexive(x: UafResult) {
        assert(x.lt(x) == result_lt(x, x));
        Loc::lt_irreflexive(x.free);
        Loc::lt_irreflexive(x.use_);
    }

    proof fn lt_transitive(x: UafResult, y: UafResult, z: UafResult) {
        assert(x.lt(y) == result_lt(x, y) && y.lt(z) == result_lt(y, z) && x.lt(z) == result_lt(
            x,
            z,
        ));
        if loc_lt(x.free, y.free) && loc_lt(y.free, z.free) {
            Loc::lt_transitive(x.free, y.free, z.free);
        }
        if loc_lt(x.use_, y.use_) && loc_lt(y.use_, z.use_) {
            Loc::lt_transitive(x.use_, y.use_, z.use_);
        }
    }

    proof fn lt_total(x: UafResult, y: UafResult) {
        assert(x.lt(y) == result_lt(x, y) && y.lt(x) == result_lt(y, x));
        Loc::lt_total(x.free, y.free);
        Loc::lt_total(x.use_, y.use_);
    }
}

impl Key for UafResult {
    fn order(&self, other: &UafResult) -> (r: Rank) {
        proof {
            UafResult::lt_irreflexive(*self);
            if result_lt(*self, *other) && result_lt(*other, *self) {
                UafResult::lt_transitive(*self, *other, *self);
            }
            Loc::lt_irreflexive(self.free);
        }
        match self.free.rank(&other.free) {
            Rank::Same => self.use_.rank(&other.use_),
            r => r,
        }
    }

    fn dup(&self) -> (r: UafResult) {
        UafResult { free: self.free.copy(), use_: self.use_.copy() }
    }
}

impl Clone for UafResult {
    fn clone(&self) -> (r: UafResult)
        ensures
            r == *self,
    {
        self.dup()
    }
}

/// The addresses of `uaf`.
pub open spec fn addrs_of(uaf: UafResult) -> AddrPair {
    AddrPair { free: uaf.free.addr, use_: uaf.use_.addr }
}

/// The addresses of the use after free `uaf`.
pub fn uaf_tuple(uaf: &UafResult) -> (r: (u64, u64))
    ensures
        r == (uaf.free.addr, uaf.use_.addr),
{
    let free = match to_u64(uaf.free.addr) {
        Some(a) => a,
        None => uaf.free.addr,
    };
    let use_ = match to_u64(uaf.use_.addr) {
        Some(a) => a,
        None => uaf.use_.addr,
    };
    (free, use_)
}

/// The pairs of addresses of `results`.
pub open spec fn addr_pairs(results: Seq<UafResult>) -> Set<AddrPair> {
    Set::new(|p: AddrPair| exists|i: int| 0 <= i < results.len() && addrs_of(#[trigger] results[i]) == p)
}

/// The results among `results`.
pub open spec fn result_set(results: Seq<UafResult>) -> Set<UafResult> {
    Set::new(|p: UafResult| results.contains(p))
}

/// The uses after free of `results` told apart by their addresses alone:
/// each pair of addresses once, in ascending order.
pub fn dedup_addrs(results: &Vec<UafResult>) -> (r: Vec<AddrPair>)
    ensures
        r@ == elements(addr_pairs(results@)),
{
    let mut found: SortedSet<AddrPair> = SortedSet::new();
    let mut i: usize = 0;
    while i < results.len()
        invariant
            i <= results@.len(),
            found.wf(),
            forall|p: AddrPair|
                found@.contains(p) == exists|j: int|
                    0 <= j < i && addrs_of(#[trigger] results@[j]) == p,
        decreases results@.len() - i,
    {
        let ghost prev = found@;
        let (free, use_) = uaf_tuple(&results[i]);
        found.insert(AddrPair { free, use_ });
        proof {
            assert forall|p: AddrPair|
                found@.contains(p) == exists|j: int|
                    0 <= j < i + 1 && addrs_of(#[trigger] results@[j]) == p by {
                if prev.contains(p) {
                    let j = choose|j: int| 0 <= j < i && addrs_of(#[trigger] results@[j]) == p;
                    assert(0 <= j < i + 1 && addrs_of(results@[j]) == p);
                }
                if p == addrs_of(results@[i as int]) {
                    assert(0 <= i < i + 1 && addrs_of(results@[i as int]) == p);
                }
                if exists|j: int| 0 <= j < i + 1 && addrs_of(#[trigger] results@[j]) == p {
                    let j = choose|j: int| 0 <= j < i + 1 && addrs_of(#[trigger] results@[j]) == p;
                    if j < i {
                        assert(prev.contains(p));
                    }
                }
            }
        }
        i += 1;
    }
    proof {
        assert(found@ =~= addr_pairs(results@));
        found.lemma_seq();
    }
    found.to_vec()
}

/// The uses after free of `results` told apart by their locations, call
/// stacks included: each once, in ascending order.
pub fn dedup_locs(results: &Vec<UafResult>) -> (r: Vec<UafResult>)
    ensures
        r@ == elements(result_set(results@)),
{
    let mut found: SortedSet<UafResult> = SortedSet::new();
    found.extend(results);
    proof {
        assert(found@ =~= result_set(results@));
        found.lemma_seq();
    }
    found.to_vec()
}

/// The uses after free of `results` without repetition: told apart by
/// their full locations where the analysis is context-sensitive, and by
/// their addresses alone where it is not.
pub fn dedup(results: &Vec<UafResult>, uses_ctx: bool) -> (r: Vec<AddrPair>)
    ensures
        r@ == if uses_ctx {
            elements(result_set(results@)).map_values(|u: UafResult| addrs_of(u))
        } else {
            elements(addr_pairs(results@))
        },
{
    if uses_ctx {
        let full = dedup_locs(results);
        let mut out: Vec<AddrPair> = Vec::new();
        let mut i: usize = 0;
        while i < full.len()
            invariant
                i <= full@.len(),
                out@ == full@.subrange(0, i as int).map_values(|u: UafResult| addrs_of(u)),
            decreases full@.len() - i,
        {
            let (free, use_) = uaf_tuple(&full[i]);
            out.push(AddrPair { free, use_ });
            assert(out@ =~= full@.subrange(0, i + 1).map_values(|u: UafResult| addrs_of(u)));
            i += 1;
        }
        assert(full@.subrange(0, i as int) =~= full@);
        out
    } else {
        dedup_addrs(results)
    }
}

} // verus!
