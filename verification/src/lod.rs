//! Level of detail as a function of distance.
//!
//! A chunk at distance `d` from the snapped reference point gets the level
//! `floor(d / max_range * (levels - 1))`. The distance is a square root of
//! an integer, so the level is stated, and computed, over squares.

use crate::grid::lemma_square_order;
use vstd::prelude::*;

verus! {

/// The most levels a detail table may hold.
pub const MAX_LEVELS: usize = 0xffff_ffff;

/// Whether `lod` is `floor(sqrt(distance_squared) / max_range * (levels - 1))`,
/// that is `lod * max_range <= sqrt(distance_squared) * (levels - 1)
/// < (lod + 1) * max_range`, compared by squares.
pub open spec fn is_lod(lod: int, distance_squared: int, max_range: int, levels: int) -> bool {
    let scaled = distance_squared * ((levels - 1) * (levels - 1));
    &&& 0 <= lod
    &&& (lod * max_range) * (lod * max_range) <= scaled
    &&& scaled < ((lod + 1) * max_range) * ((lod + 1) * max_range)
}

/// At most one level fits a distance.
pub proof fn lemma_lod_unique(a: int, b: int, distance_squared: int, max_range: int, levels: int)
    requires
        max_range > 0,
        is_lod(a, distance_squared, max_range, levels),
        is_lod(b, distance_squared, max_range, levels),
    ensures
        a == b,
{
    lemma_lod_monotonic(a, distance_squared, b, distance_squared, max_range, levels);
    lemma_lod_monotonic(b, distance_squared, a, distance_squared, max_range, levels);
}

/// The level never decreases as the distance grows.
pub proof fn lemma_lod_monotonic(
    near_lod: int,
    near_squared: int,
    far_lod: int,
    far_squared: int,
    max_range: int,
    levels: int,
)
    requires
        max_range > 0,
        near_squared <= far_squared,
        is_lod(near_lod, near_squared, max_range, levels),
        is_lod(far_lod, far_squared, max_range, levels),
    ensures
        near_lod <= far_lod,
{
    if near_lod > far_lod {
        let steps = (levels - 1) * (levels - 1);
        let low = (far_lod + 1) * max_range;
        let high = near_lod * max_range;
        assert(0 <= low <= high) by (nonlinear_arith)
            requires
                0 <= far_lod,
                far_lod + 1 <= near_lod,
                max_range > 0,
                low == (far_lod + 1) * max_range,
                high == near_lod * max_range,
        ;
        lemma_square_order(low, high);
        assert(near_squared * steps <= far_squared * steps) by (nonlinear_arith)
            requires
                near_squared <= far_squared,
                steps == (levels - 1) * (levels - 1),
        ;
    }
}

/// Distance zero has the finest level, and distance `max_range` the
/// coarsest.
pub proof fn lemma_lod_endpoints(max_range: int, levels: int)
    requires
        max_range > 0,
        levels >= 1,
    ensures
        is_lod(0, 0, max_range, levels),
        is_lod(levels - 1, max_range * max_range, max_range, levels),
{
    let steps = levels - 1;
    assert(0 * (steps * steps) == 0);
    assert((0 * max_range) * (0 * max_range) == 0);
    assert(0 < ((0 + 1) * max_range) * ((0 + 1) * max_range)) by (nonlinear_arith)
        requires
            max_range > 0,
    ;
    assert((steps * max_range) * (steps * max_range) == (max_range * max_range) * (steps * steps))
        by (nonlinear_arith);
    assert((steps * max_range) * (steps * max_range) < ((steps + 1) * max_range) * ((steps + 1)
        * max_range)) by (nonlinear_arith)
        requires
            steps >= 0,
            max_range > 0,
    ;
}

/// With a table that runs from fine to coarse, a farther chunk never has
/// a higher resolution than a nearer one.
pub proof fn lemma_resolution_monotonic(
    detail: Seq<usize>,
    near_lod: int,
    near_squared: int,
    far_lod: int,
    far_squared: int,
    max_range: int,
)
    requires
        max_range > 0,
        near_squared <= far_squared,
        far_squared <= max_range * max_range,
        detail.len() >= 1,
        forall|i: int, j: int| 0 <= i <= j < detail.len() ==> detail[i] >= detail[j],
        is_lod(near_lod, near_squared, max_range, detail.len() as int),
        is_lod(far_lod, far_squared, max_range, detail.len() as int),
    ensures
        0 <= near_lod <= far_lod < detail.len(),
        detail[near_lod] >= detail[far_lod],
{
    let levels = detail.len() as int;
    lemma_lod_monotonic(near_lod, near_squared, far_lod, far_squared, max_range, levels);
    lemma_lod_endpoints(max_range, levels);
    lemma_lod_monotonic(far_lod, far_squared, levels - 1, max_range * max_range, max_range, levels);
}

/// The level of detail of a chunk whose squared distance from the snapped
/// reference point is `distance_squared`.
pub fn lod_index(distance_squared: u64, max_range: u32, levels: usize) -> (lod: usize)
    requires
        max_range > 0,
        1 <= levels <= MAX_LEVELS,
        distance_squared <= max_range * max_range,
    ensures
        is_lod(lod as int, distance_squared as int, max_range as int, levels as int),
        lod < levels,
{
    let range: u128 = max_range as u128;
    let steps: u128 = (levels - 1) as u128;
    proof {
        assert(steps * steps <= 0xffff_fffe * 0xffff_fffe) by (nonlinear_arith)
            requires
                0 <= steps <= 0xffff_fffe,
        ;
        assert(max_range * max_range <= 0xffff_ffff * 0xffff_ffff) by (nonlinear_arith)
            requires
                0 <= max_range <= 0xffff_ffff,
        ;
        assert(distance_squared * (steps * steps) <= (0xffff_ffff * 0xffff_ffff) * (0xffff_fffe
            * 0xffff_fffe)) by (nonlinear_arith)
            requires
                0 <= distance_squared <= 0xffff_ffff * 0xffff_ffff,
                0 <= steps * steps <= 0xffff_fffe * 0xffff_fffe,
        ;
    }
    let scaled: u128 = (distance_squared as u128) * (steps * steps);
    let mut lod: usize = 0;
    proof {
        assert((0 * range) * (0 * range) == 0) by (nonlinear_arith);
        assert(0 <= scaled);
    }
    while lod < levels - 1
        invariant
            max_range > 0,
            range == max_range,
            1 <= levels <= MAX_LEVELS,
            steps == levels - 1,
            distance_squared <= max_range * max_range,
            scaled == distance_squared * (steps * steps),
            lod <= levels - 1,
            (lod * range) * (lod * range) <= scaled,
        ensures
            lod <= levels - 1,
            (lod * range) * (lod * range) <= scaled,
            lod < levels - 1 ==> scaled < ((lod + 1) * range) * ((lod + 1) * range),
        decreases levels - 1 - lod,
    {
        proof {
            assert((lod + 1) * range <= 0xffff_fffe * 0xffff_ffff) by (nonlinear_arith)
                requires
                    0 <= lod + 1 <= 0xffff_fffe,
                    0 <= range <= 0xffff_ffff,
            ;
        }
        let next: u128 = (lod as u128 + 1) * range;
        proof {
            assert(next * next <= (0xffff_fffe * 0xffff_ffff) * (0xffff_fffe * 0xffff_ffff))
                by (nonlinear_arith)
                requires
                    0 <= next <= 0xffff_fffe * 0xffff_ffff,
            ;
        }
        if next * next > scaled {
            break;
        }
        lod = lod + 1;
    }
    proof {
        if lod == levels - 1 {
            lemma_lod_endpoints(max_range as int, levels as int);
            assert(scaled <= (max_range * max_range) * (steps * steps)) by (nonlinear_arith)
                requires
                    scaled == distance_squared * (steps * steps),
                    distance_squared <= max_range * max_range,
                    0 <= steps,
            ;
        }
    }
    lod
}

} // verus!
