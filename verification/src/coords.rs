//! Fixed-point world coordinates.
//!
//! A position along one axis is an `i64` measured in milli-units; one terrain
//! tile spans `MILLIS_PER_TILE` milli-units. Positions are kept inside
//! `[-POS_LIMIT, POS_LIMIT]`, and every update saturates at those bounds, so
//! coordinate arithmetic can never overflow.

use vstd::arithmetic::div_mod::lemma_hoist_over_denominator;
use vstd::prelude::*;

verus! {

/// Width of one tile in milli-units.
pub const MILLIS_PER_TILE: i64 = 1000;

/// Largest coordinate magnitude the world admits, in milli-units.
/// A multiple of `MILLIS_PER_TILE`.
pub const POS_LIMIT: i64 = 1_000_000_000_000;

/// `POS_LIMIT` expressed in whole tiles.
pub const TILE_LIMIT: i64 = 1_000_000_000;

/// A coordinate that lies inside the world bounds.
pub open spec fn in_bounds(v: int) -> bool {
    -POS_LIMIT <= v <= POS_LIMIT
}

/// Saturate a coordinate at the world bounds.
pub open spec fn clamp_milli(v: int) -> int {
    if v < -POS_LIMIT {
        -POS_LIMIT as int
    } else if v > POS_LIMIT {
        POS_LIMIT as int
    } else {
        v
    }
}

/// The tile column that contains a milli-unit coordinate: the floor of
/// `v / MILLIS_PER_TILE` (spec division by a positive divisor is Euclidean,
/// hence already the floor).
pub open spec fn tile_of(v: int) -> int {
    v / (MILLIS_PER_TILE as int)
}

/// Where a displacement of `dir * speed` milli-units lands, saturated at the
/// world bounds.
pub open spec fn step_target(pos: int, dir: int, speed: int) -> int {
    clamp_milli(pos + dir * speed)
}

/// Compute `step_target` in executable code. Total: the product is formed in
/// 128-bit arithmetic and the sum saturates at the world bounds.
pub fn clamp_add_scaled(pos: i64, dir: i64, speed: i64) -> (r: i64)
    ensures
        r == step_target(pos as int, dir as int, speed as int),
        in_bounds(r as int),
{
    proof {
        assert((dir as int) * (speed as int) <= 0x8000000000000000 * 0x8000000000000000
            && (dir as int) * (speed as int) >= -(0x8000000000000000 * 0x8000000000000000))
            by (nonlinear_arith)
            requires
                -0x8000000000000000 <= dir as int <= 0x8000000000000000,
                -0x8000000000000000 <= speed as int <= 0x8000000000000000,
        ;
    }
    let scaled: i128 = (dir as i128) * (speed as i128);
    let sum: i128 = (pos as i128) + scaled;
    if sum < -(POS_LIMIT as i128) {
        -POS_LIMIT
    } else if sum > POS_LIMIT as i128 {
        POS_LIMIT
    } else {
        sum as i64
    }
}

/// Compute `tile_of` in executable code, for in-bounds coordinates. The
/// coordinate is shifted into the non-negative range so that unsigned
/// division gives the floor.
pub fn tile_coord(v: i64) -> (t: i64)
    requires
        in_bounds(v as int),
    ensures
        t == tile_of(v as int),
        -TILE_LIMIT <= t <= TILE_LIMIT,
{
    let shifted: i64 = v + POS_LIMIT;
    let q: u64 = (shifted as u64) / (MILLIS_PER_TILE as u64);
    proof {
        lemma_hoist_over_denominator(v as int, TILE_LIMIT as int, MILLIS_PER_TILE as nat);
        assert(shifted as int == v as int + TILE_LIMIT * MILLIS_PER_TILE);
    }
    (q as i64) - TILE_LIMIT
}

} // verus!
