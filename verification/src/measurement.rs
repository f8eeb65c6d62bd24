//! Measuring a run of the analysis against the bugs that are known.

use vstd::prelude::*;
use crate::sorted_set::{SortedSet, elements};
use crate::uaf::{AddrPair, UafResult, addrs_of, uaf_tuple};
use crate::Config;

verus! {

/// Binaries to analyse together, and the uses after free known in them.
#[derive(Debug, PartialEq, Eq)]
pub struct Case {
    pub names: Vec<String>,
    pub expected: Vec<(u64, u64)>,
}

/// What a run of the analysis found, held against what was expected.
#[derive(Debug, PartialEq, Eq)]
pub struct Measurement {
    /// The configuration of the run.
    pub mode: Config,
    /// The binaries analysed.
    pub artifact: Vec<String>,
    /// How many of the expected bugs were found.
    pub true_positives: usize,
    /// How many bugs were found that were not expected.
    pub false_positives: usize,
    /// The expected bugs that were missed.
    pub true_negatives: Vec<(u64, u64)>,
    /// Everything that was found, in ascending order.
    pub found: Vec<(u64, u64)>,
    /// The duration of the run, in seconds.
    pub time: u64,
    /// The memory the run took, in bytes.
    pub space: usize,
}

/// The count kept while the results are gone through.
pub struct Tally {
    /// The pairs of addresses seen.
    pub found: Set<AddrPair>,
    /// The expected pairs not seen yet.
    pub missing: Seq<(u64, u64)>,
    /// The number of pairs seen that were not expected.
    pub false_positives: nat,
}

/// The first position at which `s` holds `x`; the length of `s` if none does.
pub open spec fn first_index(s: Seq<(u64, u64)>, x: (u64, u64)) -> int
    decreases s.len(),
{
    if s.len() == 0 {
        0
    } else if s[0] == x {
        0
    } else {
        1 + first_index(s.drop_first(), x)
    }
}

/// The count after the result `uaf`. With call stacks a result whose free
/// carries none is passed over, and so is a pair of addresses seen before.
/// A new pair is struck from the expected ones where it is among them, and
/// counted as not expected otherwise.
pub open spec fn tally_step(t: Tally, uaf: UafResult, uses_ctx: bool) -> Tally {
    let p = addrs_of(uaf);
    let pair = (p.free, p.use_);
    if (uses_ctx && uaf.free.stack is NoStack) || t.found.contains(p) {
        t
    } else if t.missing.contains(pair) {
        Tally {
            found: t.found.insert(p),
            missing: t.missing.remove(first_index(t.missing, pair)),
            false_positives: t.false_positives,
        }
    } else {
        Tally {
            found: t.found.insert(p),
            missing: t.missing,
            false_positives: t.false_positives + 1,
        }
    }
}

/// The count after the results `results`, first to last.
pub open spec fn tally(results: Seq<UafResult>, uses_ctx: bool, expected: Seq<(u64, u64)>) -> Tally
    decreases results.len(),
{
    if results.len() == 0 {
        Tally { found: Set::empty(), missing: expected, false_positives: 0 }
    } else {
        tally_step(tally(results.drop_last(), uses_ctx, expected), results.last(), uses_ctx)
    }
}

/// The first position at which `v` holds `x`, if any.
pub fn position(v: &Vec<(u64, u64)>, x: (u64, u64)) -> (r: Option<usize>)
    ensures
        match r {
            Some(i) => i < v@.len() && i == first_index(v@, x) && v@[i as int] == x,
            None => !v@.contains(x),
        },
{
    let mut i: usize = 0;
    assert(v@.subrange(0, v@.len() as int) =~= v@);
    while i < v.len()
        invariant
            i <= v@.len(),
            forall|j: int| 0 <= j < i ==> v@[j] != x,
            first_index(v@, x) == i + first_index(v@.subrange(i as int, v@.len() as int), x),
        decreases v@.len() - i,
    {
        let ghost rest = v@.subrange(i as int, v@.len() as int);
        proof {
            assert(rest[0] == v@[i as int]);
            assert(rest.drop_first() =~= v@.subrange(i + 1, v@.len() as int));
        }
        if v[i].0 == x.0 && v[i].1 == x.1 {
            return Some(i);
        }
        i += 1;
    }
    None
}

/// The measurement of a run with the configuration `mode` on the binaries
/// `names` that gave `results` in `time` seconds and `space` bytes, where
/// `expected` are the uses after free known.
pub fn measure_mode(
    results: &Vec<UafResult>,
    names: &Vec<String>,
    mode: Config,
    expected: &Vec<(u64, u64)>,
    time: u64,
    space: usize,
) -> (r: Measurement)
    ensures
        r.mode == mode,
        r.artifact@ == names@,
        r.time == time,
        r.space == space,
        r.true_negatives@ == tally(results@, mode.loc_type == crate::LocType::AddrAndStack, expected@).missing,
        r.false_positives == tally(
            results@,
            mode.loc_type == crate::LocType::AddrAndStack,
            expected@,
        ).false_positives,
        r.true_positives == expected@.len() - r.true_negatives@.len(),
        r.found@ == elements(
            tally(results@, mode.loc_type == crate::LocType::AddrAndStack, expected@).found,
        ).map_values(|p: AddrPair| (p.free, p.use_)),
{
    let uses_ctx = mode.uses_ctx();
    let mut false_positives: usize = 0;
    let mut missing: Vec<(u64, u64)> = Vec::new();
    let mut k: usize = 0;
    while k < expected.len()
        invariant
            k <= expected@.len(),
            missing@ == expected@.subrange(0, k as int),
        decreases expected@.len() - k,
    {
        missing.push(expected[k]);
        assert(missing@ =~= expected@.subrange(0, k + 1));
        k += 1;
    }
    assert(expected@.subrange(0, k as int) =~= expected@);
    let mut found: SortedSet<AddrPair> = SortedSet::new();
    let mut i: usize = 0;
    while i < results.len()
        invariant
            i <= results@.len(),
            found.wf(),
            false_positives <= i,
            missing@.len() <= expected@.len(),
            uses_ctx == (mode.loc_type == crate::LocType::AddrAndStack),
            tally(results@.subrange(0, i as int), uses_ctx, expected@) == (Tally {
                found: found@,
                missing: missing@,
                false_positives: false_positives as nat,
            }),
        decreases results@.len() - i,
    {
        proof {
            assert(results@.subrange(0, i + 1).drop_last() =~= results@.subrange(0, i as int));
            assert(results@.subrange(0, i + 1).last() == results@[i as int]);
        }
        let uaf = &results[i];
        let (free, use_) = uaf_tuple(uaf);
        let p = AddrPair { free, use_ };
        let ghost seen = found@;
        if !(uses_ctx && !uaf.free.is_stacked()) {
            if found.insert(p) {
                match position(&missing, (free, use_)) {
                    Some(pos) => {
                        missing.remove(pos);
                    },
                    None => {
                        false_positives += 1;
                    },
                }
            } else {
                assert(found@ =~= seen);
            }
        }
        i += 1;
    }
    assert(results@.subrange(0, i as int) =~= results@);
    proof {
        found.lemma_seq();
    }
    let pairs = found.to_vec();
    let mut all: Vec<(u64, u64)> = Vec::new();
    let mut j: usize = 0;
    while j < pairs.len()
        invariant
            j <= pairs@.len(),
            all@ == pairs@.subrange(0, j as int).map_values(|p: AddrPair| (p.free, p.use_)),
        decreases pairs@.len() - j,
    {
        all.push((pairs[j].free, pairs[j].use_));
        assert(all@ =~= pairs@.subrange(0, j + 1).map_values(|p: AddrPair| (p.free, p.use_)));
        j += 1;
    }
    assert(pairs@.subrange(0, j as int) =~= pairs@);
    Measurement {
        mode,
        artifact: names.clone(),
        true_positives: expected.len() - missing.len(),
        false_positives,
        true_negatives: missing,
        found: all,
        time,
        space,
    }
}

} // verus!
