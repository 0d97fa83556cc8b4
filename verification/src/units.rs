//! The fixed-point scale and the unit conversions used by the export.
use crate::arith::{div_round, spec_div_round};
use crate::geometry::{Coordinates, Vector3};
use vstd::prelude::*;

verus! {

/// One whole unit. Every quantity is an integer count of millionths: a time
/// of `ONE` is one second, a length of `ONE` one metre, an acceleration of
/// `ONE` one g, a roll rate of `ONE` one degree per second.
pub const ONE: i64 = 1_000_000;

/// Standard gravity, in millionths of a metre per second squared.
pub const G: i64 = 9_806_000;

/// The largest magnitude of a length or speed that the conversions and the
/// spline accept: two to the sixtieth millionths.
pub const LENGTH_LIMIT: i64 = 0x1000_0000_0000_0000;

/// Feet in a metre, times ten million.
pub const FEET_PER_METRE_E7: i64 = 32_808_399;

/// Miles per hour in a metre per second, times ten million.
pub const MPH_PER_MPS_E7: i64 = 22_369_363;

/// Whether a length or speed is within [`LENGTH_LIMIT`] of zero.
pub open spec fn within_limit(v: int) -> bool {
    -LENGTH_LIMIT <= v <= LENGTH_LIMIT
}

/// Metres to feet: `v * 3.2808399`, rounded to the nearest millionth.
pub open spec fn spec_m_to_ft(v: int) -> int {
    spec_div_round(v * FEET_PER_METRE_E7, 10_000_000)
}

/// Metres per second to miles per hour: `v * 2.2369363`, rounded to the
/// nearest millionth.
pub open spec fn spec_mps_to_miph(v: int) -> int {
    spec_div_round(v * MPH_PER_MPS_E7, 10_000_000)
}

/// Metres to feet on each coordinate of a point.
pub open spec fn spec_m_to_ft_vec3(pos: Coordinates) -> Coordinates {
    Coordinates { x: spec_m_to_ft(pos.x), y: spec_m_to_ft(pos.y), z: spec_m_to_ft(pos.z) }
}

/// Converts a length in metres to feet.
pub fn m_to_ft(v: i64) -> (r: i64)
    requires
        within_limit(v as int),
    ensures
        r == spec_m_to_ft(v as int),
        -4 * LENGTH_LIMIT <= r <= 4 * LENGTH_LIMIT,
{
    let n: i128 = (v as i128) * (FEET_PER_METRE_E7 as i128);
    let q: i128 = div_round(n, 10_000_000);
    proof {
        lemma_scaled_bound(v as int, FEET_PER_METRE_E7 as int);
    }
    q as i64
}

/// Converts each coordinate of a point from metres to feet.
pub fn m_to_ft_vec3(pos: Vector3) -> (r: Vector3)
    requires
        pos.in_range(),
    ensures
        r@ == spec_m_to_ft_vec3(pos@),
{
    Vector3 { x: m_to_ft(pos.x), y: m_to_ft(pos.y), z: m_to_ft(pos.z) }
}

/// Converts a speed in metres per second to miles per hour.
pub fn mps_to_miph(velocity: i64) -> (r: i64)
    requires
        within_limit(velocity as int),
    ensures
        r == spec_mps_to_miph(velocity as int),
{
    let n: i128 = (velocity as i128) * (MPH_PER_MPS_E7 as i128);
    let q: i128 = div_round(n, 10_000_000);
    proof {
        lemma_scaled_bound(velocity as int, MPH_PER_MPS_E7 as int);
    }
    q as i64
}

/// Scaling by a factor below four keeps a value within four times its bound.
proof fn lemma_scaled_bound(v: int, factor: int)
    requires
        within_limit(v),
        0 < factor < 40_000_000,
    ensures
        -4 * LENGTH_LIMIT <= spec_div_round(v * factor, 10_000_000) <= 4 * LENGTH_LIMIT,
{
    let limit: int = LENGTH_LIMIT as int;
    assert(-limit * factor <= v * factor <= limit * factor) by (nonlinear_arith)
        requires
            -limit <= v <= limit,
            factor > 0,
    {
    }
    assert(limit * factor <= (4 * limit) * 10_000_000) by (nonlinear_arith)
        requires
            limit > 0,
            factor < 40_000_000,
    {
    }
    crate::arith::lemma_div_round_monotonic(v * factor, (4 * limit) * 10_000_000, 10_000_000);
    crate::arith::lemma_div_round_monotonic((-4 * limit) * 10_000_000, v * factor, 10_000_000);
    crate::arith::lemma_div_round_exact(4 * limit, 10_000_000);
    crate::arith::lemma_div_round_exact(-4 * limit, 10_000_000);
}

} // verus!
