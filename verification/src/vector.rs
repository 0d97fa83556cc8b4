//! Vectors in fixed point: the operations on accelerations and axes that the
//! integrator needs, each scaled back to millionths and rounded.
use crate::arith::{div_round, isqrt, lemma_div_round_magnitude, spec_div_round, spec_isqrt};
use crate::geometry::{Coordinates, Vector3, AXIS_LIMIT};
use crate::units::ONE;
use vstd::prelude::*;

verus! {

/// Whether every coordinate of a vector is at most `bound` in magnitude.
pub open spec fn bounded(v: Coordinates, bound: int) -> bool {
    &&& -bound <= v.x <= bound
    &&& -bound <= v.y <= bound
    &&& -bound <= v.z <= bound
}

/// An axis times a factor.
pub open spec fn spec_scaled(axis: Coordinates, factor: int) -> Coordinates {
    Coordinates {
        x: spec_div_round(axis.x * factor, ONE as int),
        y: spec_div_round(axis.y * factor, ONE as int),
        z: spec_div_round(axis.z * factor, ONE as int),
    }
}

/// The sum of two vectors.
pub open spec fn spec_sum(a: Coordinates, b: Coordinates) -> Coordinates {
    Coordinates { x: a.x + b.x, y: a.y + b.y, z: a.z + b.z }
}

/// The difference of two vectors.
pub open spec fn spec_difference(a: Coordinates, b: Coordinates) -> Coordinates {
    Coordinates { x: a.x - b.x, y: a.y - b.y, z: a.z - b.z }
}

/// The scalar product of two vectors, not scaled back.
pub open spec fn spec_dot(a: Coordinates, b: Coordinates) -> int {
    a.x * b.x + a.y * b.y + a.z * b.z
}

/// The part of `v` that lies along the unit vector `axis`.
pub open spec fn spec_along(axis: Coordinates, v: Coordinates) -> Coordinates {
    let dot = spec_dot(axis, v);
    Coordinates {
        x: spec_div_round(axis.x * dot, ONE * ONE),
        y: spec_div_round(axis.y * dot, ONE * ONE),
        z: spec_div_round(axis.z * dot, ONE * ONE),
    }
}

/// The vector product of an axis and a vector.
pub open spec fn spec_cross(a: Coordinates, b: Coordinates) -> Coordinates {
    Coordinates {
        x: spec_div_round(a.y * b.z - a.z * b.y, ONE as int),
        y: spec_div_round(a.z * b.x - a.x * b.z, ONE as int),
        z: spec_div_round(a.x * b.y - a.y * b.x, ONE as int),
    }
}

/// The length of a vector, rounded down.
pub open spec fn spec_magnitude(v: Coordinates) -> int {
    spec_isqrt(v.x * v.x + v.y * v.y + v.z * v.z)
}

/// An axis of the frame times an acceleration.
pub(crate) fn scaled(axis: &Vector3, factor: i64) -> (v: Vector3)
    requires
        axis.is_axis(),
        -10_000_000_000_000 <= factor <= 10_000_000_000_000,
    ensures
        v@ == spec_scaled(axis@, factor as int),
        bounded(v@, 11_000_000_000_000),
{
    proof {
        lemma_scaled_coordinate(axis.x as int, factor as int);
        lemma_scaled_coordinate(axis.y as int, factor as int);
        lemma_scaled_coordinate(axis.z as int, factor as int);
    }
    let f: i128 = factor as i128;
    let one: i128 = ONE as i128;
    Vector3 {
        x: div_round((axis.x as i128) * f, one) as i64,
        y: div_round((axis.y as i128) * f, one) as i64,
        z: div_round((axis.z as i128) * f, one) as i64,
    }
}

/// A coordinate of an axis times an acceleration stays within bounds.
proof fn lemma_scaled_coordinate(c: int, factor: int)
    requires
        -AXIS_LIMIT <= c <= AXIS_LIMIT,
        -10_000_000_000_000 <= factor <= 10_000_000_000_000,
    ensures
        -(11_000_000_000_000 * ONE) <= c * factor <= 11_000_000_000_000 * ONE,
        -11_000_000_000_000 <= spec_div_round(c * factor, ONE as int) <= 11_000_000_000_000,
{
    assert(-(11_000_000_000_000 * ONE) <= c * factor <= 11_000_000_000_000 * ONE)
        by (nonlinear_arith)
        requires
            -1_000_200 <= c <= 1_000_200,
            -10_000_000_000_000 <= factor <= 10_000_000_000_000,
            ONE == 1_000_000,
    {
    }
    lemma_div_round_magnitude(c * factor, ONE as int, 11_000_000_000_000);
}

/// The part of a vector that lies along an axis of the frame.
pub(crate) fn along(axis: &Vector3, v: &Vector3) -> (r: Vector3)
    requires
        axis.is_axis(),
        bounded(v@, 23_000_000_000_000),
    ensures
        r@ == spec_along(axis@, v@),
        bounded(r@, 71_000_000_000_000),
{
    proof {
        lemma_dot_bounded(axis@, v@);
        let dot = spec_dot(axis@, v@);
        lemma_along_coordinate(axis.x as int, dot);
        lemma_along_coordinate(axis.y as int, dot);
        lemma_along_coordinate(axis.z as int, dot);
    }
    let dot: i128 = (axis.x as i128) * (v.x as i128) + (axis.y as i128) * (v.y as i128) + (
    axis.z as i128) * (v.z as i128);
    let unit: i128 = (ONE as i128) * (ONE as i128);
    Vector3 {
        x: div_round((axis.x as i128) * dot, unit) as i64,
        y: div_round((axis.y as i128) * dot, unit) as i64,
        z: div_round((axis.z as i128) * dot, unit) as i64,
    }
}

/// The scalar product of an axis and a bounded vector is bounded.
proof fn lemma_dot_bounded(a: Coordinates, v: Coordinates)
    requires
        bounded(a, AXIS_LIMIT as int),
        bounded(v, 23_000_000_000_000),
    ensures
        -70_000_000_000_000_000_000 <= spec_dot(a, v) <= 70_000_000_000_000_000_000,
        -23_100_000_000_000_000_000 <= a.x * v.x <= 23_100_000_000_000_000_000,
        -23_100_000_000_000_000_000 <= a.y * v.y <= 23_100_000_000_000_000_000,
        -23_100_000_000_000_000_000 <= a.z * v.z <= 23_100_000_000_000_000_000,
{
    lemma_axis_product(a.x, v.x);
    lemma_axis_product(a.y, v.y);
    lemma_axis_product(a.z, v.z);
}

/// A coordinate of an axis times a bounded coordinate is bounded.
proof fn lemma_axis_product(c: int, v: int)
    requires
        -AXIS_LIMIT <= c <= AXIS_LIMIT,
        -23_000_000_000_000 <= v <= 23_000_000_000_000,
    ensures
        -23_100_000_000_000_000_000 <= c * v <= 23_100_000_000_000_000_000,
{
    assert(-23_100_000_000_000_000_000 <= c * v <= 23_100_000_000_000_000_000)
        by (nonlinear_arith)
        requires
            -1_000_200 <= c <= 1_000_200,
            -23_000_000_000_000 <= v <= 23_000_000_000_000,
    {
    }
}

/// A coordinate of an axis times a scalar product, scaled back twice.
proof fn lemma_along_coordinate(c: int, dot: int)
    requires
        -AXIS_LIMIT <= c <= AXIS_LIMIT,
        -70_000_000_000_000_000_000 <= dot <= 70_000_000_000_000_000_000,
    ensures
        ONE * ONE == 1_000_000_000_000,
        -(71_000_000_000_000 * (ONE * ONE)) <= c * dot <= 71_000_000_000_000 * (ONE * ONE),
        -71_000_000_000_000 <= spec_div_round(c * dot, ONE * ONE) <= 71_000_000_000_000,
{
    assert(ONE * ONE == 1_000_000_000_000) by (nonlinear_arith)
        requires
            ONE == 1_000_000,
    {
    }
    assert(-(71_000_000_000_000 * 1_000_000_000_000) <= c * dot <= 71_000_000_000_000
        * 1_000_000_000_000) by (nonlinear_arith)
        requires
            -1_000_200 <= c <= 1_000_200,
            -70_000_000_000_000_000_000 <= dot <= 70_000_000_000_000_000_000,
    {
    }
    lemma_div_round_magnitude(c * dot, ONE * ONE, 71_000_000_000_000);
}

/// The vector product of an axis of the frame and an acceleration.
pub(crate) fn cross(a: &Vector3, b: &Vector3) -> (r: Vector3)
    requires
        a.is_axis(),
        bounded(b@, 100_000_000_000_000),
    ensures
        r@ == spec_cross(a@, b@),
        bounded(r@, 210_000_000_000_000),
        r.in_range(),
{
    proof {
        lemma_cross_coordinate(a.y as int, b.z as int, a.z as int, b.y as int);
        lemma_cross_coordinate(a.z as int, b.x as int, a.x as int, b.z as int);
        lemma_cross_coordinate(a.x as int, b.y as int, a.y as int, b.x as int);
    }
    let (ax, ay, az): (i128, i128, i128) = (a.x as i128, a.y as i128, a.z as i128);
    let (bx, by, bz): (i128, i128, i128) = (b.x as i128, b.y as i128, b.z as i128);
    let one: i128 = ONE as i128;
    Vector3 {
        x: div_round(ay * bz - az * by, one) as i64,
        y: div_round(az * bx - ax * bz, one) as i64,
        z: div_round(ax * by - ay * bx, one) as i64,
    }
}

/// A coordinate of a vector product stays within bounds.
proof fn lemma_cross_coordinate(p: int, q: int, r: int, t: int)
    requires
        -AXIS_LIMIT <= p <= AXIS_LIMIT,
        -AXIS_LIMIT <= r <= AXIS_LIMIT,
        -100_000_000_000_000 <= q <= 100_000_000_000_000,
        -100_000_000_000_000 <= t <= 100_000_000_000_000,
    ensures
        -105_000_000_000_000_000_000 <= p * q <= 105_000_000_000_000_000_000,
        -105_000_000_000_000_000_000 <= r * t <= 105_000_000_000_000_000_000,
        -210_000_000_000_000 <= spec_div_round(p * q - r * t, ONE as int) <= 210_000_000_000_000,
{
    assert(-105_000_000_000_000_000_000 <= p * q <= 105_000_000_000_000_000_000 &&
        -105_000_000_000_000_000_000 <= r * t <= 105_000_000_000_000_000_000)
        by (nonlinear_arith)
        requires
            -1_000_200 <= p <= 1_000_200,
            -1_000_200 <= r <= 1_000_200,
            -100_000_000_000_000 <= q <= 100_000_000_000_000,
            -100_000_000_000_000 <= t <= 100_000_000_000_000,
    {
    }
    lemma_div_round_magnitude(p * q - r * t, ONE as int, 210_000_000_000_000);
}

/// The length of an acceleration.
pub(crate) fn magnitude(v: &Vector3) -> (m: i64)
    requires
        bounded(v@, 100_000_000_000_000),
    ensures
        m == spec_magnitude(v@),
        0 <= m <= 200_000_000_000_000,
{
    proof {
        crate::geometry::lemma_square_bound(v.x as int, 100_000_000_000_000);
        crate::geometry::lemma_square_bound(v.y as int, 100_000_000_000_000);
        crate::geometry::lemma_square_bound(v.z as int, 100_000_000_000_000);
        assert(100_000_000_000_000int * 100_000_000_000_000int
            == 10_000_000_000_000_000_000_000_000_000int) by (nonlinear_arith);
    }
    let (x, y, z): (i128, i128, i128) = (v.x as i128, v.y as i128, v.z as i128);
    let total: i128 = x * x + y * y + z * z;
    let root: u64 = isqrt(total as u128);
    proof {
        let r: int = root as int;
        assert(r <= 200_000_000_000_000) by (nonlinear_arith)
            requires
                0 <= r,
                r * r <= total,
                total <= 30_000_000_000_000_000_000_000_000_000,
        {
        }
    }
    root as i64
}

} // verus!
