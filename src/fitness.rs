use vstd::prelude::*;

use crate::sorting::{sort_descending, SortKey};

verus! {

// A fitness score travels as the IEEE-754 bit pattern of a non-negative, finite
// `f32` (what `f32::to_bits` gives). For such values, comparing the patterns as
// unsigned integers orders them exactly as the numbers themselves, so ranking and
// the thresholds below are exact.

/// Bit pattern of `0.5_f32`.
pub const FITNESS_HALF: u32 = 0x3F00_0000;

/// Bit pattern of `0.75_f32`.
pub const FITNESS_THREE_QUARTERS: u32 = 0x3F40_0000;

/// Bit pattern of `0.9_f32`.
pub const FITNESS_NINE_TENTHS: u32 = 0x3F66_6666;

/// Bit pattern of `0.95_f32`.
pub const FITNESS_NINETEEN_TWENTIETHS: u32 = 0x3F73_3333;

/// Bit pattern of positive infinity: every smaller pattern is a non-negative, finite number.
pub const FITNESS_INFINITY: u32 = 0x7F80_0000;

/// Mutation strength, in thousandths of the best genome's largest parameter
/// magnitude, once the best fitness reaches 0.95.
pub const SMALLEST_SCALE_PERMILLE: u32 = 10;

/// A pattern that stands for a non-negative, finite score.
pub open spec fn is_valid_fitness(f: u32) -> bool {
    f < FITNESS_INFINITY
}

/// Mutation strength as thousandths of the best genome's largest parameter magnitude:
/// coarse while the best fitness is low, fine once it is high.
pub open spec fn scale_factor(best: u32) -> u32 {
    if best < FITNESS_HALF {
        150
    } else if best < FITNESS_THREE_QUARTERS {
        75
    } else if best < FITNESS_NINE_TENTHS {
        50
    } else if best < FITNESS_NINETEEN_TWENTIETHS {
        20
    } else {
        SMALLEST_SCALE_PERMILLE
    }
}

/// Whether a score pattern stands for a non-negative, finite number.
pub fn fitness_is_valid(f: u32) -> (r: bool)
    ensures
        r == is_valid_fitness(f),
{
    f < FITNESS_INFINITY
}

/// The mutation strength for a generation whose best score is `best`, in thousandths
/// of the best genome's largest parameter magnitude.
pub fn scale_factor_permille(best: u32) -> (r: u32)
    ensures
        r == scale_factor(best),
{
    if best < FITNESS_HALF {
        150
    } else if best < FITNESS_THREE_QUARTERS {
        75
    } else if best < FITNESS_NINE_TENTHS {
        50
    } else if best < FITNESS_NINETEEN_TWENTIETHS {
        20
    } else {
        SMALLEST_SCALE_PERMILLE
    }
}

/// A better score never asks for stronger mutation.
pub proof fn lemma_scale_factor_non_increasing(a: u32, b: u32)
    requires
        a <= b,
    ensures
        scale_factor(a) >= scale_factor(b),
{
}

/// At each breakpoint (0.5, 0.75, 0.9 and 0.95) the mutation strength drops strictly.
pub proof fn lemma_scale_factor_drops_at_breakpoints(a: u32, b: u32)
    requires
        a < b,
        a < FITNESS_HALF <= b || a < FITNESS_THREE_QUARTERS <= b || a < FITNESS_NINE_TENTHS <= b
            || a < FITNESS_NINETEEN_TWENTIETHS <= b,
    ensures
        scale_factor(a) > scale_factor(b),
{
}

/// Whether the scores are in non-increasing order, best first.
pub open spec fn is_ranked<G>(s: Seq<(u32, G)>) -> bool {
    forall|i: int, j: int| 0 <= i < j < s.len() ==> s[i].0 >= s[j].0
}

/// Sorts scored genomes by score, best first. Equal scores come in no set order.
pub fn rank<G>(scored: Vec<(u32, G)>) -> (r: Vec<(u32, G)>)
    ensures
        is_ranked(r@),
        r@.to_multiset() == scored@.to_multiset(),
        r@.len() == scored@.len(),
{
    let r = sort_descending(scored);
    assert(is_ranked(r@)) by {
        assert forall|i: int, j: int| 0 <= i < j < r@.len() implies r@[i].0 >= r@[j].0 by {
            assert(r@[i].0.key_int() >= r@[j].0.key_int());
        }
    }
    r
}

} // verus!
