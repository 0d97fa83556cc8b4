//! Points, directions and orientations in fixed point.
use crate::arith::{div_round, isqrt, spec_div_round, spec_isqrt};
use crate::units::{within_limit, LENGTH_LIMIT, ONE};
use vstd::prelude::*;

verus! {

/// A point or a direction in space. The y axis points up, the z axis
/// forward and the x axis to the right of a train at rest.
#[derive(Clone, Copy, Debug, PartialEq, Eq, Structural)]
pub struct Vector3 {
    pub x: i64,
    pub y: i64,
    pub z: i64,
}

/// The coordinates of a [`Vector3`] as unbounded integers.
pub struct Coordinates {
    pub x: int,
    pub y: int,
    pub z: int,
}

impl View for Vector3 {
    type V = Coordinates;

    open spec fn view(&self) -> Coordinates {
        Coordinates { x: self.x as int, y: self.y as int, z: self.z as int }
    }
}

impl Vector3 {
    /// Whether every coordinate is within the length limit.
    pub open spec fn in_range(self) -> bool {
        within_limit(self.x as int) && within_limit(self.y as int) && within_limit(self.z as int)
    }

    /// Whether every coordinate is within the limit of an axis of a
    /// rotated frame.
    pub open spec fn is_axis(self) -> bool {
        &&& -AXIS_LIMIT <= self.x <= AXIS_LIMIT
        &&& -AXIS_LIMIT <= self.y <= AXIS_LIMIT
        &&& -AXIS_LIMIT <= self.z <= AXIS_LIMIT
    }

    /// The squared Euclidean distance to `other`.
    pub open spec fn spec_distance_squared(self, other: Vector3) -> int {
        (self.x - other.x) * (self.x - other.x) + (self.y - other.y) * (self.y - other.y) + (
        self.z - other.z) * (self.z - other.z)
    }

    /// The Euclidean distance to `other`, rounded down to a whole millionth.
    pub open spec fn spec_distance(self, other: Vector3) -> int {
        spec_isqrt(self.spec_distance_squared(other))
    }

    /// Tells whether every coordinate is within the length limit.
    pub fn is_in_range(&self) -> (b: bool)
        ensures
            b == self.in_range(),
    {
        -LENGTH_LIMIT <= self.x && self.x <= LENGTH_LIMIT && -LENGTH_LIMIT <= self.y && self.y
            <= LENGTH_LIMIT && -LENGTH_LIMIT <= self.z && self.z <= LENGTH_LIMIT
    }

    /// The straight-line distance between two points.
    pub fn distance(&self, other: &Vector3) -> (d: i64)
        requires
            self.in_range(),
            other.in_range(),
        ensures
            d == self.spec_distance(*other),
            0 <= d <= 4 * LENGTH_LIMIT,
    {
        let dx: i128 = (self.x as i128) - (other.x as i128);
        let dy: i128 = (self.y as i128) - (other.y as i128);
        let dz: i128 = (self.z as i128) - (other.z as i128);
        proof {
            lemma_square_bound(dx as int, 2 * LENGTH_LIMIT);
            lemma_square_bound(dy as int, 2 * LENGTH_LIMIT);
            lemma_square_bound(dz as int, 2 * LENGTH_LIMIT);
        }
        let sum: i128 = dx * dx + dy * dy + dz * dz;
        let root: u64 = isqrt(sum as u128);
        proof {
            let r: int = root as int;
            assert(r <= 4 * LENGTH_LIMIT) by (nonlinear_arith)
                requires
                    0 <= r,
                    r * r <= sum,
                    sum <= 3 * ((2 * LENGTH_LIMIT) * (2 * LENGTH_LIMIT)),
                    LENGTH_LIMIT > 0,
            {
            }
        }
        root as i64
    }
}

/// A square is bounded by the square of a bound on the magnitude.
pub proof fn lemma_square_bound(v: int, bound: int)
    requires
        -bound <= v <= bound,
    ensures
        0 <= v * v <= bound * bound,
{
    assert(0 <= v * v <= bound * bound) by (nonlinear_arith)
        requires
            -bound <= v <= bound,
    {
    }
}

/// How far the norm of an orientation may be from one.
pub const UNIT_TOLERANCE: i64 = 100;

/// The smallest norm of an accepted orientation.
pub const UNIT_NORM_MIN: i64 = ONE - UNIT_TOLERANCE;

/// The largest norm of an accepted orientation.
pub const UNIT_NORM_MAX: i64 = ONE + UNIT_TOLERANCE;

/// The largest magnitude of a coordinate of an axis of a rotated frame.
pub const AXIS_LIMIT: i64 = 1_000_200;

/// A rotation, held as the four components of a quaternion.
#[derive(Clone, Copy, Debug, PartialEq, Eq, Structural)]
pub struct Orientation {
    pub x: i64,
    pub y: i64,
    pub z: i64,
    pub w: i64,
}

/// The four components of a quaternion as unbounded integers.
pub struct Components {
    pub x: int,
    pub y: int,
    pub z: int,
    pub w: int,
}

impl View for Orientation {
    type V = Components;

    open spec fn view(&self) -> Components {
        Components { x: self.x as int, y: self.y as int, z: self.z as int, w: self.w as int }
    }
}

/// The image of the up axis `(0, 1, 0)` under the rotation of a quaternion.
pub open spec fn spec_up_axis(q: Components) -> Coordinates {
    Coordinates {
        x: spec_div_round(2 * (q.x * q.y - q.w * q.z), ONE as int),
        y: spec_div_round(q.w * q.w - q.x * q.x + q.y * q.y - q.z * q.z, ONE as int),
        z: spec_div_round(2 * (q.y * q.z + q.w * q.x), ONE as int),
    }
}

/// The image of the right axis `(1, 0, 0)` under the rotation of a
/// quaternion.
pub open spec fn spec_right_axis(q: Components) -> Coordinates {
    Coordinates {
        x: spec_div_round(q.w * q.w + q.x * q.x - q.y * q.y - q.z * q.z, ONE as int),
        y: spec_div_round(2 * (q.x * q.y + q.w * q.z), ONE as int),
        z: spec_div_round(2 * (q.x * q.z - q.w * q.y), ONE as int),
    }
}

/// The image of the forward axis `(0, 0, 1)` under the rotation of a
/// quaternion.
pub open spec fn spec_forward_axis(q: Components) -> Coordinates {
    Coordinates {
        x: spec_div_round(2 * (q.x * q.z + q.w * q.y), ONE as int),
        y: spec_div_round(2 * (q.y * q.z - q.w * q.x), ONE as int),
        z: spec_div_round(q.w * q.w - q.x * q.x - q.y * q.y + q.z * q.z, ONE as int),
    }
}

impl Orientation {
    /// The squared norm of the quaternion.
    pub open spec fn norm_squared(self) -> int {
        self.x * self.x + self.y * self.y + self.z * self.z + self.w * self.w
    }

    /// Whether the norm is within [`UNIT_TOLERANCE`] of one.
    pub open spec fn is_unit(self) -> bool {
        UNIT_NORM_MIN * UNIT_NORM_MIN <= self.norm_squared() <= UNIT_NORM_MAX * UNIT_NORM_MAX
    }

    /// The image of the up axis `(0, 1, 0)` under the rotation.
    pub open spec fn spec_up(self) -> Coordinates {
        spec_up_axis(self@)
    }

    /// The image of the right axis `(1, 0, 0)` under the rotation.
    pub open spec fn spec_right(self) -> Coordinates {
        spec_right_axis(self@)
    }

    /// The image of the forward axis `(0, 0, 1)` under the rotation.
    pub open spec fn spec_forward(self) -> Coordinates {
        spec_forward_axis(self@)
    }

    /// The rotation that leaves every direction where it is.
    pub fn identity() -> (q: Orientation)
        ensures
            q == (Orientation { x: 0, y: 0, z: 0, w: ONE }),
            q.is_unit(),
    {
        assert(1_000_000int * 1_000_000int == 1_000_000_000_000int) by (nonlinear_arith);
        assert(999_900int * 999_900int == 999_800_010_000int) by (nonlinear_arith);
        assert(1_000_100int * 1_000_100int == 1_000_200_010_000int) by (nonlinear_arith);
        Orientation { x: 0, y: 0, z: 0, w: ONE }
    }

    /// Tells whether the norm is within the tolerance of one.
    pub fn check_unit(&self) -> (b: bool)
        ensures
            b == self.is_unit(),
    {
        if !(component_fits(self.x) && component_fits(self.y) && component_fits(self.z)
            && component_fits(self.w)) {
            proof {
                lemma_large_component(*self);
            }
            return false;
        }
        proof {
            lemma_square_bound(self.x as int, UNIT_NORM_MAX as int);
            lemma_square_bound(self.y as int, UNIT_NORM_MAX as int);
            lemma_square_bound(self.z as int, UNIT_NORM_MAX as int);
            lemma_square_bound(self.w as int, UNIT_NORM_MAX as int);
            assert(UNIT_NORM_MAX * UNIT_NORM_MAX == 1_000_200_010_000int) by (nonlinear_arith);
            assert(UNIT_NORM_MIN * UNIT_NORM_MIN == 999_800_010_000int) by (nonlinear_arith);
        }
        let n: i64 = self.x * self.x + self.y * self.y + self.z * self.z + self.w * self.w;
        999_800_010_000 <= n && n <= 1_000_200_010_000
    }

    /// The up axis of the rotated frame.
    pub fn up(&self) -> (v: Vector3)
        requires
            self.is_unit(),
        ensures
            v@ == self.spec_up(),
            v.is_axis(),
    {
        proof {
            lemma_unit_products(*self);
            lemma_axis_numerators(*self);
        }
        let x: i128 = self.x as i128;
        let y: i128 = self.y as i128;
        let z: i128 = self.z as i128;
        let w: i128 = self.w as i128;
        let one: i128 = ONE as i128;
        let ux: i128 = div_round(2 * (x * y - w * z), one);
        let uy: i128 = div_round(w * w - x * x + y * y - z * z, one);
        let uz: i128 = div_round(2 * (y * z + w * x), one);
        proof {
            lemma_rotated_component(2 * (x * y - w * z));
            lemma_rotated_component(w * w - x * x + y * y - z * z);
            lemma_rotated_component(2 * (y * z + w * x));
        }
        Vector3 { x: ux as i64, y: uy as i64, z: uz as i64 }
    }

    /// The right axis of the rotated frame.
    pub fn right(&self) -> (v: Vector3)
        requires
            self.is_unit(),
        ensures
            v@ == self.spec_right(),
            v.is_axis(),
    {
        proof {
            lemma_unit_products(*self);
            lemma_axis_numerators(*self);
        }
        let x: i128 = self.x as i128;
        let y: i128 = self.y as i128;
        let z: i128 = self.z as i128;
        let w: i128 = self.w as i128;
        let one: i128 = ONE as i128;
        let rx: i128 = div_round(w * w + x * x - y * y - z * z, one);
        let ry: i128 = div_round(2 * (x * y + w * z), one);
        let rz: i128 = div_round(2 * (x * z - w * y), one);
        proof {
            lemma_rotated_component(w * w + x * x - y * y - z * z);
            lemma_rotated_component(2 * (x * y + w * z));
            lemma_rotated_component(2 * (x * z - w * y));
        }
        Vector3 { x: rx as i64, y: ry as i64, z: rz as i64 }
    }

    /// The forward axis of the rotated frame.
    pub fn forward(&self) -> (v: Vector3)
        requires
            self.is_unit(),
        ensures
            v@ == self.spec_forward(),
            v.is_axis(),
    {
        proof {
            lemma_unit_products(*self);
            lemma_axis_numerators(*self);
        }
        let x: i128 = self.x as i128;
        let y: i128 = self.y as i128;
        let z: i128 = self.z as i128;
        let w: i128 = self.w as i128;
        let one: i128 = ONE as i128;
        let fx: i128 = div_round(2 * (x * z + w * y), one);
        let fy: i128 = div_round(2 * (y * z - w * x), one);
        let fz: i128 = div_round(w * w - x * x - y * y + z * z, one);
        proof {
            lemma_rotated_component(2 * (x * z + w * y));
            lemma_rotated_component(2 * (y * z - w * x));
            lemma_rotated_component(w * w - x * x - y * y + z * z);
        }
        Vector3 { x: fx as i64, y: fy as i64, z: fz as i64 }
    }
}

/// Whether a component is small enough to belong to a unit quaternion.
fn component_fits(c: i64) -> (b: bool)
    ensures
        b == (-UNIT_NORM_MAX <= c <= UNIT_NORM_MAX),
{
    -UNIT_NORM_MAX <= c && c <= UNIT_NORM_MAX
}

/// The bound on every product of two components of a unit quaternion.
pub open spec fn product_bound() -> int {
    UNIT_NORM_MAX * UNIT_NORM_MAX
}

/// Whether the product of `a` and `b` is within the product bound.
pub open spec fn product_bounded(a: int, b: int) -> bool {
    -product_bound() <= a * b <= product_bound()
}

/// A quaternion with a component beyond the largest norm is not a unit.
proof fn lemma_large_component(q: Orientation)
    requires
        !(-UNIT_NORM_MAX <= q.x <= UNIT_NORM_MAX) || !(-UNIT_NORM_MAX <= q.y <= UNIT_NORM_MAX) || !(
        -UNIT_NORM_MAX <= q.z <= UNIT_NORM_MAX) || !(-UNIT_NORM_MAX <= q.w <= UNIT_NORM_MAX),
    ensures
        !q.is_unit(),
{
    let m: int = UNIT_NORM_MAX as int;
    let (x, y, z, w) = (q.x as int, q.y as int, q.z as int, q.w as int);
    assert(x * x + y * y + z * z + w * w > m * m) by (nonlinear_arith)
        requires
            m > 0,
            !(-m <= x <= m) || !(-m <= y <= m) || !(-m <= z <= m) || !(-m <= w <= m),
    {
    }
}

/// Every component of a unit quaternion is at most the largest norm in
/// magnitude, and so is bounded every product of two of them.
pub proof fn lemma_unit_products(q: Orientation)
    requires
        q.is_unit(),
    ensures
        -UNIT_NORM_MAX <= q.x <= UNIT_NORM_MAX,
        -UNIT_NORM_MAX <= q.y <= UNIT_NORM_MAX,
        -UNIT_NORM_MAX <= q.z <= UNIT_NORM_MAX,
        -UNIT_NORM_MAX <= q.w <= UNIT_NORM_MAX,
        product_bounded(q.x as int, q.x as int),
        product_bounded(q.y as int, q.y as int),
        product_bounded(q.z as int, q.z as int),
        product_bounded(q.w as int, q.w as int),
        product_bounded(q.x as int, q.y as int),
        product_bounded(q.x as int, q.z as int),
        product_bounded(q.y as int, q.z as int),
        product_bounded(q.w as int, q.x as int),
        product_bounded(q.w as int, q.y as int),
        product_bounded(q.w as int, q.z as int),
        product_bound() == 1_000_200_010_000,
{
    if !(-UNIT_NORM_MAX <= q.x <= UNIT_NORM_MAX) || !(-UNIT_NORM_MAX <= q.y <= UNIT_NORM_MAX) || !(
    -UNIT_NORM_MAX <= q.z <= UNIT_NORM_MAX) || !(-UNIT_NORM_MAX <= q.w <= UNIT_NORM_MAX) {
        lemma_large_component(q);
    }
    let m: int = UNIT_NORM_MAX as int;
    lemma_product_bound(q.x as int, q.x as int, m);
    lemma_product_bound(q.y as int, q.y as int, m);
    lemma_product_bound(q.z as int, q.z as int, m);
    lemma_product_bound(q.w as int, q.w as int, m);
    lemma_product_bound(q.x as int, q.y as int, m);
    lemma_product_bound(q.x as int, q.z as int, m);
    lemma_product_bound(q.y as int, q.z as int, m);
    lemma_product_bound(q.w as int, q.x as int, m);
    lemma_product_bound(q.w as int, q.y as int, m);
    lemma_product_bound(q.w as int, q.z as int, m);
    assert(m * m == 1_000_200_010_000) by (nonlinear_arith)
        requires
            m == 1_000_100,
    {
    }
}

/// A product is bounded by the square of a bound on both factors.
proof fn lemma_product_bound(a: int, b: int, m: int)
    requires
        -m <= a <= m,
        -m <= b <= m,
    ensures
        -(m * m) <= a * b <= m * m,
{
    assert(-(m * m) <= a * b <= m * m) by (nonlinear_arith)
        requires
            -m <= a <= m,
            -m <= b <= m,
    {
    }
}

/// Twice a product is at most the sum of the squares in magnitude.
proof fn lemma_twice_product(a: int, b: int)
    ensures
        -(a * a + b * b) <= 2 * (a * b) <= a * a + b * b,
{
    assert(-(a * a + b * b) <= 2 * (a * b) <= a * a + b * b) by (nonlinear_arith);
}

/// The numerators of the coordinates of the rotated axes are at most the
/// squared norm of the quaternion in magnitude.
pub proof fn lemma_axis_numerators(q: Orientation)
    ensures
        within_norm(q, 2 * (q.x * q.y - q.w * q.z)),
        within_norm(q, 2 * (q.x * q.y + q.w * q.z)),
        within_norm(q, 2 * (q.y * q.z + q.w * q.x)),
        within_norm(q, 2 * (q.y * q.z - q.w * q.x)),
        within_norm(q, 2 * (q.x * q.z + q.w * q.y)),
        within_norm(q, 2 * (q.x * q.z - q.w * q.y)),
        within_norm(q, q.w * q.w - q.x * q.x + q.y * q.y - q.z * q.z),
        within_norm(q, q.w * q.w + q.x * q.x - q.y * q.y - q.z * q.z),
        within_norm(q, q.w * q.w - q.x * q.x - q.y * q.y + q.z * q.z),
{
    let (x, y, z, w) = (q.x as int, q.y as int, q.z as int, q.w as int);
    lemma_twice_product(x, y);
    lemma_twice_product(w, z);
    lemma_twice_product(y, z);
    lemma_twice_product(w, x);
    lemma_twice_product(x, z);
    lemma_twice_product(w, y);
    lemma_square_bound(x, if x >= 0 { x } else { -x });
    lemma_square_bound(y, if y >= 0 { y } else { -y });
    lemma_square_bound(z, if z >= 0 { z } else { -z });
    lemma_square_bound(w, if w >= 0 { w } else { -w });
}

/// Whether `n` is at most the squared norm of `q` in magnitude.
pub open spec fn within_norm(q: Orientation, n: int) -> bool {
    -q.norm_squared() <= n <= q.norm_squared()
}

/// A numerator that is at most the squared norm of a unit quaternion gives
/// a coordinate within the limit of an axis.
proof fn lemma_rotated_component(n: int)
    requires
        -1_000_200_010_000 <= n <= 1_000_200_010_000,
    ensures
        -AXIS_LIMIT <= spec_div_round(n, ONE as int) <= AXIS_LIMIT,
{
    crate::arith::lemma_div_round_monotonic(n, 1_000_200 * ONE + 10_000, ONE as int);
    crate::arith::lemma_div_round_monotonic(-(1_000_200 * ONE + 10_000), n, ONE as int);
}

} // verus!
