//! Fitness scores for corpus entries.
//!
//! Scores are fixed-point values in hundredths of a unit: one unit is 100.
//! The uniform formula rewards aggregate coverage (ten units per set bit)
//! and lightly penalizes larger inputs (a tenth of a unit per byte) as an
//! execution-cost proxy, floored at one unit so that every entry keeps a
//! positive sampling weight and none is starved.

use vstd::prelude::*;

use crate::coverage::{bit_region_len, lemma_pop_range_bounds, pop_range, FuzzilliCoverageObserver};

verus! {

/// One score unit, in hundredths.
pub const SCORE_UNIT: u64 = 100;

/// Fallback score (a quarter unit) when no coverage map is available for
/// the evaluation context: an intentional default, not an error path.
pub const FALLBACK_SCORE: u64 = 25;

/// The uniform fitness formula in hundredths of a unit.
pub open spec fn uniform_score_centi(count: int, len: int) -> int {
    if count * 1000 - len * 10 < 100 {
        100
    } else {
        count * 1000 - len * 10
    }
}

/// Score provider that rewards aggregate coverage and penalizes length.
pub struct UniformDistribution {}

impl UniformDistribution {
    /// The score of an entry of the given payload length under the given
    /// coverage map, in hundredths of a unit.
    pub fn compute(observer: Option<&FuzzilliCoverageObserver>, input_len: usize) -> (r: u64)
        requires
            observer matches Some(o) ==> o.wf(),
        ensures
            r == match observer {
                None => FALLBACK_SCORE as int,
                Some(o) => uniform_score_centi(
                    pop_range(o@, 4, 4 + bit_region_len(o.spec_num_edges() as int)),
                    input_len as int,
                ),
            },
            r >= 1,
    {
        match observer {
            None => FALLBACK_SCORE,
            Some(o) => {
                let count: u64 = o.count_set();
                proof {
                    lemma_pop_range_bounds(o@, 4, 4 + bit_region_len(o.spec_num_edges() as int));
                }
                let raw: u128 = (count as u128) * 1000;
                let pen: u128 = (input_len as u128) * 10;
                if raw < pen + 100 {
                    SCORE_UNIT
                } else {
                    (raw - pen) as u64
                }
            },
        }
    }
}

/// Score provider that gives every entry the same fixed score, regardless
/// of coverage and length: exercises scheduler plumbing independent of the
/// coverage signal.
pub struct ConstantDistribution {}

impl ConstantDistribution {
    pub fn compute(observer: Option<&FuzzilliCoverageObserver>, input_len: usize) -> (r: u64)
        ensures
            r == SCORE_UNIT,
    {
        let _ = observer;
        let _ = input_len;
        SCORE_UNIT
    }
}

} // verus!
