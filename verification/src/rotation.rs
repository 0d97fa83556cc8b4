//! Quaternions in fixed point: their product and their normalisation.
use crate::arith::{
    div_round, is_isqrt, isqrt, lemma_div_round_error, lemma_div_round_magnitude,
    lemma_isqrt_is_root, spec_div_round, spec_isqrt,
};
use crate::geometry::{Components, Orientation};
use crate::units::ONE;
use vstd::prelude::*;

verus! {

/// The squared norm of a quaternion.
pub open spec fn spec_norm_squared(q: Components) -> int {
    q.x * q.x + q.y * q.y + q.z * q.z + q.w * q.w
}

/// The norm of a quaternion, rounded down.
pub open spec fn spec_norm(q: Components) -> int {
    spec_isqrt(spec_norm_squared(q))
}

/// A quaternion scaled to the norm one: each component over the norm.
pub open spec fn spec_normalized(q: Components) -> Components {
    let n = spec_norm(q);
    Components {
        x: spec_div_round(q.x * ONE, n),
        y: spec_div_round(q.y * ONE, n),
        z: spec_div_round(q.z * ONE, n),
        w: spec_div_round(q.w * ONE, n),
    }
}

/// What one component adds to the squared norm after normalisation,
/// bracketed: with `c` the component, `n` the norm and `r` the component
/// over the norm, `n * r` misses `ONE * c` by at most half of `n`.
proof fn lemma_component_bracket(c: int, n: int, r: int, s: int)
    requires
        n > 0,
        s > 0,
        -n <= c <= n,
        -n <= 2 * (n * r - s * c) <= n,
    ensures
        n * n * (r * r) <= s * s * (c * c) + s * (n * n) + n * n,
        n * n * (r * r) >= s * s * (c * c) - s * (n * n),
{
    let e = n * r - s * c;
    let a = n * r;
    let b = s * c;
    assert(a * a == b * b + 2 * (b * e) + e * e) by (nonlinear_arith)
        requires
            a == b + e,
    {
    }
    assert(a * a == n * n * (r * r)) by (nonlinear_arith)
        requires
            a == n * r,
    {
    }
    assert(b * b == s * s * (c * c)) by (nonlinear_arith)
        requires
            b == s * c,
    {
    }
    assert(b * e == s * (c * e)) by (nonlinear_arith)
        requires
            b == s * c,
    {
    }
    assert(-(n * n) <= 2 * (c * e) <= n * n) by (nonlinear_arith)
        requires
            -n <= c <= n,
            -n <= 2 * e <= n,
            n > 0,
    {
    }
    assert(0 <= e * e <= n * n) by (nonlinear_arith)
        requires
            -n <= 2 * e <= n,
            n > 0,
    {
    }
    assert(-(s * (n * n)) <= 2 * (s * (c * e)) <= s * (n * n)) by (nonlinear_arith)
        requires
            -(n * n) <= 2 * (c * e) <= n * n,
            s > 0,
    {
    }
}

/// A component is at most the norm in magnitude.
proof fn lemma_component_below_norm(c: int, rest: int, n: int)
    requires
        rest >= 0,
        is_isqrt(c * c + rest, n),
    ensures
        -n <= c <= n,
{
    assert(-n <= c <= n) by (nonlinear_arith)
        requires
            0 <= n,
            c * c + rest < (n + 1) * (n + 1),
            rest >= 0,
    {
    }
}

/// The smallest norm, rounded down, of a quaternion that can be scaled to
/// the norm one within the tolerance: a half.
pub open spec fn spec_normalizable(q: Components) -> bool {
    2 * spec_norm(q) >= ONE
}

/// Scaling a quaternion to the norm one gives a norm within a
/// ten-thousandth of one, whatever the rounding, provided that the norm was
/// at least a half.
pub proof fn lemma_normalized_is_unit(q: Components)
    requires
        spec_normalizable(q),
    ensures
        (ONE - 100) * (ONE - 100) <= spec_norm_squared(spec_normalized(q)) <= (ONE + 100) * (ONE
            + 100),
{
    let s: int = ONE as int;
    let total = spec_norm_squared(q);
    assert(total >= 0) by (nonlinear_arith)
        requires
            total == q.x * q.x + q.y * q.y + q.z * q.z + q.w * q.w,
    {
    }
    lemma_isqrt_is_root(total);
    let n = spec_norm(q);
    let r = spec_normalized(q);
    let (xx, yy, zz, ww) = (q.x * q.x, q.y * q.y, q.z * q.z, q.w * q.w);
    assert(xx >= 0 && yy >= 0 && zz >= 0 && ww >= 0) by (nonlinear_arith)
        requires
            xx == q.x * q.x,
            yy == q.y * q.y,
            zz == q.z * q.z,
            ww == q.w * q.w,
    {
    }
    lemma_component_below_norm(q.x, yy + zz + ww, n);
    lemma_component_below_norm(q.y, xx + zz + ww, n);
    lemma_component_below_norm(q.z, xx + yy + ww, n);
    lemma_component_below_norm(q.w, xx + yy + zz, n);
    lemma_div_round_error(q.x * s, n);
    lemma_div_round_error(q.y * s, n);
    lemma_div_round_error(q.z * s, n);
    lemma_div_round_error(q.w * s, n);
    assert(q.x * s == s * q.x && q.y * s == s * q.y && q.z * s == s * q.z && q.w * s == s * q.w)
        by (nonlinear_arith);
    lemma_component_bracket(q.x, n, r.x, s);
    lemma_component_bracket(q.y, n, r.y, s);
    lemma_component_bracket(q.z, n, r.z, s);
    lemma_component_bracket(q.w, n, r.w, s);
    let nn = n * n;
    let ss = s * s;
    let after = spec_norm_squared(r);
    assert(nn * after == nn * (r.x * r.x) + nn * (r.y * r.y) + nn * (r.z * r.z) + nn * (r.w
        * r.w)) by (nonlinear_arith)
        requires
            after == r.x * r.x + r.y * r.y + r.z * r.z + r.w * r.w,
    {
    }
    assert(ss * total == ss * xx + ss * yy + ss * zz + ss * ww) by (nonlinear_arith)
        requires
            total == xx + yy + zz + ww,
    {
    }
    // nn * after lies within ss * total - 4 s nn and ss * total + 4 s nn + 4 nn.
    assert(nn <= total <= nn + 2 * n) by (nonlinear_arith)
        requires
            nn == n * n,
            n * n <= total,
            total < (n + 1) * (n + 1),
    {
    }
    assert(ss * nn <= ss * total <= ss * nn + 2 * (ss * n)) by (nonlinear_arith)
        requires
            nn <= total <= nn + 2 * n,
            ss > 0,
    {
    }
    assert(2 * (ss * n) <= 4 * (s * nn)) by (nonlinear_arith)
        requires
            ss == s * s,
            nn == n * n,
            s <= 2 * n,
            s > 0,
            n > 0,
    {
    }
    assert(nn * (ss + 8 * s + 4) == ss * nn + 8 * (s * nn) + 4 * nn && nn * (ss - 4 * s) == ss * nn
        - 4 * (s * nn)) by (nonlinear_arith);
    assert(nn * after <= nn * (ss + 8 * s + 4));
    assert(nn * after >= nn * (ss - 4 * s));
    assert(after <= ss + 8 * s + 4) by (nonlinear_arith)
        requires
            nn * after <= nn * (ss + 8 * s + 4),
            nn > 0,
    {
    }
    assert(after >= ss - 4 * s) by (nonlinear_arith)
        requires
            nn * after >= nn * (ss - 4 * s),
            nn > 0,
    {
    }
    assert(ss == 1_000_000_000_000 && (s - 100) * (s - 100) == 999_800_010_000 && (s + 100) * (s
        + 100) == 1_000_200_010_000) by (nonlinear_arith)
        requires
            s == 1_000_000,
            ss == s * s,
    {
    }
}

/// The product of two quaternions before it is scaled back: each component
/// is a sum of products of components.
pub open spec fn spec_raw_product(a: Components, b: Components) -> Components {
    Components {
        x: a.w * b.x + a.x * b.w + a.y * b.z - a.z * b.y,
        y: a.w * b.y - a.x * b.z + a.y * b.w + a.z * b.x,
        z: a.w * b.z + a.x * b.y - a.y * b.x + a.z * b.w,
        w: a.w * b.w - a.x * b.x - a.y * b.y - a.z * b.z,
    }
}

/// The product of two products of one component of each of two quaternions,
/// with the factors regrouped by quaternion.
proof fn lemma_regroup(p: int, q: int, r: int, t: int)
    ensures
        (p * r) * (q * t) == (p * q) * (r * t),
        (p * r) * (q * t) == (q * p) * (r * t),
        (p * r) * (q * t) == (p * q) * (t * r),
        (p * r) * (q * t) == (q * p) * (t * r),
{
    assert((p * r) * (q * t) == (p * q) * (r * t)) by (nonlinear_arith);
    assert(p * q == q * p && r * t == t * r) by (nonlinear_arith);
}

/// The square of a sum of four terms.
proof fn lemma_square_of_four(p: int, q: int, r: int, t: int)
    ensures
        (p + q + r + t) * (p + q + r + t) == p * p + q * q + r * r + t * t + 2 * (p * q) + 2 * (p
            * r) + 2 * (p * t) + 2 * (q * r) + 2 * (q * t) + 2 * (r * t),
{
    assert((p + q + r + t) * (p + q + r + t) == p * p + q * q + r * r + t * t + 2 * (p * q) + 2
        * (p * r) + 2 * (p * t) + 2 * (q * r) + 2 * (q * t) + 2 * (r * t)) by (nonlinear_arith);
}

/// A sum of four terms times a sum of four terms.
proof fn lemma_four_by_four(p: int, q: int, r: int, t: int, e: int, f: int, g: int, h: int)
    ensures
        (p + q + r + t) * (e + f + g + h) == p * e + p * f + p * g + p * h + q * e + q * f + q * g
            + q * h + r * e + r * f + r * g + r * h + t * e + t * f + t * g + t * h,
{
    let sum = p + q + r + t;
    assert(sum * (e + f + g + h) == sum * e + sum * f + sum * g + sum * h) by (nonlinear_arith);
    lemma_four_by_one(p, q, r, t, e);
    lemma_four_by_one(p, q, r, t, f);
    lemma_four_by_one(p, q, r, t, g);
    lemma_four_by_one(p, q, r, t, h);
}

/// A sum of four terms times one factor.
proof fn lemma_four_by_one(p: int, q: int, r: int, t: int, e: int)
    ensures
        (p + q + r + t) * e == p * e + q * e + r * e + t * e,
{
    assert((p + q + r + t) * e == p * e + q * e + r * e + t * e) by (nonlinear_arith);
}

/// The product of a term and the negative of another.
proof fn lemma_negated(p: int, q: int)
    ensures
        p * (-q) == -(p * q),
        (-p) * q == -(p * q),
        (-p) * (-q) == p * q,
{
    assert(p * (-q) == -(p * q) && (-p) * q == -(p * q) && (-p) * (-q) == p * q)
        by (nonlinear_arith);
}

/// The norm of a product is the product of the norms.
pub proof fn lemma_product_norm(a: Components, b: Components)
    ensures
        spec_norm_squared(spec_raw_product(a, b)) == spec_norm_squared(a) * spec_norm_squared(b),
{
    let x0 = (a.w * b.x);
    let x1 = (a.x * b.w);
    let x2 = (a.y * b.z);
    let x3 = -(a.z * b.y);
    lemma_square_of_four(x0, x1, x2, x3);
    lemma_regroup(a.w, a.w, b.x, b.x);
    lemma_negated(a.w * b.x, a.w * b.x);
    lemma_regroup(a.w, a.x, b.x, b.w);
    lemma_negated(a.w * b.x, a.x * b.w);
    lemma_regroup(a.w, a.y, b.x, b.z);
    lemma_negated(a.w * b.x, a.y * b.z);
    lemma_regroup(a.w, a.z, b.x, b.y);
    lemma_negated(a.w * b.x, a.z * b.y);
    lemma_regroup(a.x, a.x, b.w, b.w);
    lemma_negated(a.x * b.w, a.x * b.w);
    lemma_regroup(a.x, a.y, b.w, b.z);
    lemma_negated(a.x * b.w, a.y * b.z);
    lemma_regroup(a.x, a.z, b.w, b.y);
    lemma_negated(a.x * b.w, a.z * b.y);
    lemma_regroup(a.y, a.y, b.z, b.z);
    lemma_negated(a.y * b.z, a.y * b.z);
    lemma_regroup(a.y, a.z, b.z, b.y);
    lemma_negated(a.y * b.z, a.z * b.y);
    lemma_regroup(a.z, a.z, b.y, b.y);
    lemma_negated(a.z * b.y, a.z * b.y);
    let y0 = (a.w * b.y);
    let y1 = -(a.x * b.z);
    let y2 = (a.y * b.w);
    let y3 = (a.z * b.x);
    lemma_square_of_four(y0, y1, y2, y3);
    lemma_regroup(a.w, a.w, b.y, b.y);
    lemma_negated(a.w * b.y, a.w * b.y);
    lemma_regroup(a.w, a.x, b.y, b.z);
    lemma_negated(a.w * b.y, a.x * b.z);
    lemma_regroup(a.w, a.y, b.y, b.w);
    lemma_negated(a.w * b.y, a.y * b.w);
    lemma_regroup(a.w, a.z, b.y, b.x);
    lemma_negated(a.w * b.y, a.z * b.x);
    lemma_regroup(a.x, a.x, b.z, b.z);
    lemma_negated(a.x * b.z, a.x * b.z);
    lemma_regroup(a.x, a.y, b.z, b.w);
    lemma_negated(a.x * b.z, a.y * b.w);
    lemma_regroup(a.x, a.z, b.z, b.x);
    lemma_negated(a.x * b.z, a.z * b.x);
    lemma_regroup(a.y, a.y, b.w, b.w);
    lemma_negated(a.y * b.w, a.y * b.w);
    lemma_regroup(a.y, a.z, b.w, b.x);
    lemma_negated(a.y * b.w, a.z * b.x);
    lemma_regroup(a.z, a.z, b.x, b.x);
    lemma_negated(a.z * b.x, a.z * b.x);
    let z0 = (a.w * b.z);
    let z1 = (a.x * b.y);
    let z2 = -(a.y * b.x);
    let z3 = (a.z * b.w);
    lemma_square_of_four(z0, z1, z2, z3);
    lemma_regroup(a.w, a.w, b.z, b.z);
    lemma_negated(a.w * b.z, a.w * b.z);
    lemma_regroup(a.w, a.x, b.z, b.y);
    lemma_negated(a.w * b.z, a.x * b.y);
    lemma_regroup(a.w, a.y, b.z, b.x);
    lemma_negated(a.w * b.z, a.y * b.x);
    lemma_regroup(a.w, a.z, b.z, b.w);
    lemma_negated(a.w * b.z, a.z * b.w);
    lemma_regroup(a.x, a.x, b.y, b.y);
    lemma_negated(a.x * b.y, a.x * b.y);
    lemma_regroup(a.x, a.y, b.y, b.x);
    lemma_negated(a.x * b.y, a.y * b.x);
    lemma_regroup(a.x, a.z, b.y, b.w);
    lemma_negated(a.x * b.y, a.z * b.w);
    lemma_regroup(a.y, a.y, b.x, b.x);
    lemma_negated(a.y * b.x, a.y * b.x);
    lemma_regroup(a.y, a.z, b.x, b.w);
    lemma_negated(a.y * b.x, a.z * b.w);
    lemma_regroup(a.z, a.z, b.w, b.w);
    lemma_negated(a.z * b.w, a.z * b.w);
    let w0 = (a.w * b.w);
    let w1 = -(a.x * b.x);
    let w2 = -(a.y * b.y);
    let w3 = -(a.z * b.z);
    lemma_square_of_four(w0, w1, w2, w3);
    lemma_regroup(a.w, a.w, b.w, b.w);
    lemma_negated(a.w * b.w, a.w * b.w);
    lemma_regroup(a.w, a.x, b.w, b.x);
    lemma_negated(a.w * b.w, a.x * b.x);
    lemma_regroup(a.w, a.y, b.w, b.y);
    lemma_negated(a.w * b.w, a.y * b.y);
    lemma_regroup(a.w, a.z, b.w, b.z);
    lemma_negated(a.w * b.w, a.z * b.z);
    lemma_regroup(a.x, a.x, b.x, b.x);
    lemma_negated(a.x * b.x, a.x * b.x);
    lemma_regroup(a.x, a.y, b.x, b.y);
    lemma_negated(a.x * b.x, a.y * b.y);
    lemma_regroup(a.x, a.z, b.x, b.z);
    lemma_negated(a.x * b.x, a.z * b.z);
    lemma_regroup(a.y, a.y, b.y, b.y);
    lemma_negated(a.y * b.y, a.y * b.y);
    lemma_regroup(a.y, a.z, b.y, b.z);
    lemma_negated(a.y * b.y, a.z * b.z);
    lemma_regroup(a.z, a.z, b.z, b.z);
    lemma_negated(a.z * b.z, a.z * b.z);
    lemma_four_by_four(
        a.x * a.x,
        a.y * a.y,
        a.z * a.z,
        a.w * a.w,
        b.x * b.x,
        b.y * b.y,
        b.z * b.z,
        b.w * b.w,
    );
}

/// By how much the squared norm of a unit quaternion may differ from one.
pub const UNIT_SLACK: i64 = 200_010_000;

/// By how much more the squared norm of a product may differ from one than
/// the squared norm of its second factor, when the first is a unit.
pub const PRODUCT_SLACK: i64 = 205_000_000;

/// The largest difference from one of the squared norm of a quaternion
/// that [`Orientation::compose`] and [`Orientation::normalize`] accept.
pub const SLACK_LIMIT: i64 = 1_000_000_000;

/// Whether the squared norm of a quaternion differs from one by at most
/// `slack`.
pub open spec fn spec_near_unit(q: Components, slack: int) -> bool {
    ONE * ONE - slack <= spec_norm_squared(q) <= ONE * ONE + slack
}

/// The product of two quaternions: the rotation that applies `b` first and
/// then `a`.
pub open spec fn spec_product(a: Components, b: Components) -> Components {
    let raw = spec_raw_product(a, b);
    Components {
        x: spec_div_round(raw.x, ONE as int),
        y: spec_div_round(raw.y, ONE as int),
        z: spec_div_round(raw.z, ONE as int),
        w: spec_div_round(raw.w, ONE as int),
    }
}

/// A unit quaternion has a squared norm within [`UNIT_SLACK`] of one.
pub proof fn lemma_unit_is_near(q: Orientation)
    requires
        q.is_unit(),
    ensures
        spec_near_unit(q@, UNIT_SLACK as int),
        spec_near_unit(q@, SLACK_LIMIT as int),
{
    assert((ONE - 100) * (ONE - 100) == 999_800_010_000 && (ONE + 100) * (ONE + 100)
        == 1_000_200_010_000 && ONE * ONE == 1_000_000_000_000) by (nonlinear_arith)
        requires
            ONE == 1_000_000,
    {
    }
}

/// The components of a quaternion of a norm near one are near one at most.
pub proof fn lemma_near_unit_components(q: Components, slack: int)
    requires
        spec_near_unit(q, slack),
        slack <= SLACK_LIMIT,
    ensures
        -1_000_500 <= q.x <= 1_000_500,
        -1_000_500 <= q.y <= 1_000_500,
        -1_000_500 <= q.z <= 1_000_500,
        -1_000_500 <= q.w <= 1_000_500,
        spec_norm_squared(q) <= 1_001_000_000_000,
{
    let (x, y, z, w) = (q.x, q.y, q.z, q.w);
    assert(ONE * ONE == 1_000_000_000_000) by (nonlinear_arith)
        requires
            ONE == 1_000_000,
    {
    }
    assert(-1_000_500 <= x <= 1_000_500 && -1_000_500 <= y <= 1_000_500 && -1_000_500 <= z
        <= 1_000_500 && -1_000_500 <= w <= 1_000_500) by (nonlinear_arith)
        requires
            x * x + y * y + z * z + w * w <= 1_001_000_000_000,
    {
    }
}

/// The square of a rounded quotient, bracketed: with `c` the dividend, at
/// most `bound` in magnitude, `d` the divisor and `r` the rounded quotient.
proof fn lemma_rounded_square(c: int, d: int, r: int, bound: int)
    requires
        d > 0,
        -bound <= c <= bound,
        -d <= 2 * (d * r - c) <= d,
    ensures
        d * d * (r * r) <= c * c + bound * d + d * d,
        d * d * (r * r) >= c * c - bound * d,
{
    let e = d * r - c;
    let a = d * r;
    assert(a * a == c * c + 2 * (c * e) + e * e) by (nonlinear_arith)
        requires
            a == c + e,
    {
    }
    assert(a * a == d * d * (r * r)) by (nonlinear_arith)
        requires
            a == d * r,
    {
    }
    assert(-(bound * d) <= 2 * (c * e) <= bound * d) by (nonlinear_arith)
        requires
            -bound <= c <= bound,
            -d <= 2 * e <= d,
            d > 0,
    {
    }
    assert(0 <= e * e <= d * d) by (nonlinear_arith)
        requires
            -d <= 2 * e <= d,
            d > 0,
    {
    }
}

/// A number whose square is at most the square of a bound is at most the
/// bound in magnitude.
proof fn lemma_below_root(c: int, rest: int, bound: int)
    requires
        rest >= 0,
        bound >= 0,
        c * c + rest <= bound * bound,
    ensures
        -bound <= c <= bound,
{
    assert(-bound <= c <= bound) by (nonlinear_arith)
        requires
            rest >= 0,
            bound >= 0,
            c * c + rest <= bound * bound,
    {
    }
}

/// The product of a unit quaternion and a quaternion of a norm near one,
/// in either order, has a norm near one: rounding adds little to what the
/// factors are off.
pub proof fn lemma_product_near_unit(a: Components, b: Components, slack: int)
    requires
        spec_near_unit(a, UNIT_SLACK as int) && spec_near_unit(b, slack) || spec_near_unit(
            a,
            slack,
        ) && spec_near_unit(b, UNIT_SLACK as int),
        0 <= slack <= SLACK_LIMIT,
    ensures
        spec_near_unit(spec_product(a, b), slack + PRODUCT_SLACK),
{
    let s: int = 1_000_000;
    let ss: int = 1_000_000_000_000;
    let bound: int = 1_001_000_000_000;
    assert(ONE * ONE == ss) by (nonlinear_arith)
        requires
            ONE == 1_000_000,
            ss == 1_000_000_000_000,
    {
    }
    let raw = spec_raw_product(a, b);
    let p = spec_product(a, b);
    let na = spec_norm_squared(a);
    let nb = spec_norm_squared(b);
    let m = spec_norm_squared(raw);
    lemma_product_norm(a, b);
    let (unit, other) = if spec_near_unit(a, UNIT_SLACK as int) && spec_near_unit(b, slack) {
        (na, nb)
    } else {
        (nb, na)
    };
    assert(m == unit * other) by (nonlinear_arith)
        requires
            m == na * nb,
            unit == na && other == nb || unit == nb && other == na,
    {
    }
    assert((ss - 200_010_000) * (ss - slack) <= m <= (ss + 200_010_000) * (ss + slack))
        by (nonlinear_arith)
        requires
            m == unit * other,
            ss - 200_010_000 <= unit <= ss + 200_010_000,
            ss - slack <= other <= ss + slack,
            0 <= slack <= 1_000_000_000,
            ss == 1_000_000_000_000,
    {
    }
    assert((ss - 200_010_000) * (ss - slack) == (ss - 200_010_000) * ss - (ss - 200_010_000)
        * slack && (ss + 200_010_000) * (ss + slack) == (ss + 200_010_000) * ss + (ss
        + 200_010_000) * slack) by (nonlinear_arith);
    assert(bound * bound == 1_002_001_000_000_000_000_000_000 && (ss + 200_010_000) * ss
        == 1_000_200_010_000_000_000_000_000 && (ss - 200_010_000) * ss
        == 999_799_990_000_000_000_000_000) by (nonlinear_arith)
        requires
            bound == 1_001_000_000_000,
            ss == 1_000_000_000_000,
    {
    }
    let (xx, yy, zz, ww) = (raw.x * raw.x, raw.y * raw.y, raw.z * raw.z, raw.w * raw.w);
    assert(xx >= 0 && yy >= 0 && zz >= 0 && ww >= 0) by (nonlinear_arith)
        requires
            xx == raw.x * raw.x,
            yy == raw.y * raw.y,
            zz == raw.z * raw.z,
            ww == raw.w * raw.w,
    {
    }
    lemma_below_root(raw.x, yy + zz + ww, bound);
    lemma_below_root(raw.y, xx + zz + ww, bound);
    lemma_below_root(raw.z, xx + yy + ww, bound);
    lemma_below_root(raw.w, xx + yy + zz, bound);
    lemma_div_round_error(raw.x, s);
    lemma_div_round_error(raw.y, s);
    lemma_div_round_error(raw.z, s);
    lemma_div_round_error(raw.w, s);
    lemma_rounded_square(raw.x, s, p.x, bound);
    lemma_rounded_square(raw.y, s, p.y, bound);
    lemma_rounded_square(raw.z, s, p.z, bound);
    lemma_rounded_square(raw.w, s, p.w, bound);
    let after = spec_norm_squared(p);
    assert(s * s * after == s * s * (p.x * p.x) + s * s * (p.y * p.y) + s * s * (p.z * p.z) + s
        * s * (p.w * p.w)) by (nonlinear_arith)
        requires
            after == p.x * p.x + p.y * p.y + p.z * p.z + p.w * p.w,
    {
    }
    assert(s * s == ss && bound * s == 1_001_000_000_000_000_000) by (nonlinear_arith)
        requires
            s == 1_000_000,
            ss == 1_000_000_000_000,
            bound == 1_001_000_000_000,
    {
    }
    assert(ss * after <= m + 4 * (bound * s) + 4 * ss);
    assert(ss * after >= m - 4 * (bound * s));
}

/// A quaternion of a norm near one can be scaled to the norm one.
pub proof fn lemma_near_unit_normalizable(q: Components, slack: int)
    requires
        spec_near_unit(q, slack),
        slack <= SLACK_LIMIT,
    ensures
        spec_normalizable(q),
        500_000 <= spec_norm(q) <= 1_000_500,
{
    let total = spec_norm_squared(q);
    assert(ONE * ONE == 1_000_000_000_000) by (nonlinear_arith)
        requires
            ONE == 1_000_000,
    {
    }
    lemma_isqrt_is_root(total);
    let n = spec_norm(q);
    assert(500_000 <= n <= 1_000_500) by (nonlinear_arith)
        requires
            0 <= n,
            n * n <= total,
            total < (n + 1) * (n + 1),
            999_000_000_000 <= total <= 1_001_000_000_000,
    {
    }
}

impl Orientation {
    /// The rotation that applies `first` and then `self`, both taken about
    /// the axes of the world: the product of the two quaternions. The result
    /// is not scaled to the norm one.
    pub fn compose(&self, first: &Orientation) -> (r: Orientation)
        requires
            spec_near_unit(self@, SLACK_LIMIT as int),
            spec_near_unit(first@, SLACK_LIMIT as int),
        ensures
            r@ == spec_product(self@, first@),
    {
        proof {
            lemma_near_unit_components(self@, SLACK_LIMIT as int);
            lemma_near_unit_components(first@, SLACK_LIMIT as int);
            lemma_products_bounded(self@, first@);
        }
        let (x0, y0, z0, w0): (i128, i128, i128, i128) = (
            self.x as i128,
            self.y as i128,
            self.z as i128,
            self.w as i128,
        );
        let (x1, y1, z1, w1): (i128, i128, i128, i128) = (
            first.x as i128,
            first.y as i128,
            first.z as i128,
            first.w as i128,
        );
        let one: i128 = ONE as i128;
        let x: i128 = w0 * x1 + x0 * w1 + y0 * z1 - z0 * y1;
        let y: i128 = w0 * y1 - x0 * z1 + y0 * w1 + z0 * x1;
        let z: i128 = w0 * z1 + x0 * y1 - y0 * x1 + z0 * w1;
        let w: i128 = w0 * w1 - x0 * x1 - y0 * y1 - z0 * z1;
        proof {
            lemma_div_round_magnitude(x as int, ONE as int, 5_000_000);
            lemma_div_round_magnitude(y as int, ONE as int, 5_000_000);
            lemma_div_round_magnitude(z as int, ONE as int, 5_000_000);
            lemma_div_round_magnitude(w as int, ONE as int, 5_000_000);
        }
        Orientation {
            x: div_round(x, one) as i64,
            y: div_round(y, one) as i64,
            z: div_round(z, one) as i64,
            w: div_round(w, one) as i64,
        }
    }

    /// The quaternion scaled to the norm one.
    pub fn normalize(&self) -> (r: Orientation)
        requires
            spec_near_unit(self@, SLACK_LIMIT as int),
        ensures
            r@ == spec_normalized(self@),
            r.is_unit(),
    {
        proof {
            lemma_near_unit_components(self@, SLACK_LIMIT as int);
            lemma_near_unit_normalizable(self@, SLACK_LIMIT as int);
            lemma_normalized_is_unit(self@);
            lemma_squares_bounded(self@);
        }
        let (x, y, z, w): (i128, i128, i128, i128) = (
            self.x as i128,
            self.y as i128,
            self.z as i128,
            self.w as i128,
        );
        let total: i128 = x * x + y * y + z * z + w * w;
        let n: i128 = isqrt(total as u128) as i128;
        let one: i128 = ONE as i128;
        proof {
            lemma_scaled_component(x as int, n as int);
            lemma_scaled_component(y as int, n as int);
            lemma_scaled_component(z as int, n as int);
            lemma_scaled_component(w as int, n as int);
        }
        Orientation {
            x: div_round(x * one, n) as i64,
            y: div_round(y * one, n) as i64,
            z: div_round(z * one, n) as i64,
            w: div_round(w * one, n) as i64,
        }
    }
}

/// The products of the components of two quaternions of norms near one
/// stay far below what sixty-four bits can hold.
proof fn lemma_products_bounded(a: Components, b: Components)
    requires
        -1_000_500 <= a.x <= 1_000_500,
        -1_000_500 <= a.y <= 1_000_500,
        -1_000_500 <= a.z <= 1_000_500,
        -1_000_500 <= a.w <= 1_000_500,
        -1_000_500 <= b.x <= 1_000_500,
        -1_000_500 <= b.y <= 1_000_500,
        -1_000_500 <= b.z <= 1_000_500,
        -1_000_500 <= b.w <= 1_000_500,
    ensures
        product_small(a.x, b.x) && product_small(a.x, b.y) && product_small(a.x, b.z)
            && product_small(a.x, b.w),
        product_small(a.y, b.x) && product_small(a.y, b.y) && product_small(a.y, b.z)
            && product_small(a.y, b.w),
        product_small(a.z, b.x) && product_small(a.z, b.y) && product_small(a.z, b.z)
            && product_small(a.z, b.w),
        product_small(a.w, b.x) && product_small(a.w, b.y) && product_small(a.w, b.z)
            && product_small(a.w, b.w),
{
    lemma_product_small(a.x, b.x);
    lemma_product_small(a.x, b.y);
    lemma_product_small(a.x, b.z);
    lemma_product_small(a.x, b.w);
    lemma_product_small(a.y, b.x);
    lemma_product_small(a.y, b.y);
    lemma_product_small(a.y, b.z);
    lemma_product_small(a.y, b.w);
    lemma_product_small(a.z, b.x);
    lemma_product_small(a.z, b.y);
    lemma_product_small(a.z, b.z);
    lemma_product_small(a.z, b.w);
    lemma_product_small(a.w, b.x);
    lemma_product_small(a.w, b.y);
    lemma_product_small(a.w, b.z);
    lemma_product_small(a.w, b.w);
}

/// Whether a product of two components is at most a million and a quarter
/// squared in magnitude.
pub open spec fn product_small(a: int, b: int) -> bool {
    -1_250_000_000_000 <= a * b <= 1_250_000_000_000
}

/// The product of two components near one at most is small.
proof fn lemma_product_small(a: int, b: int)
    requires
        -1_000_500 <= a <= 1_000_500,
        -1_000_500 <= b <= 1_000_500,
    ensures
        product_small(a, b),
{
    assert(-1_250_000_000_000 <= a * b <= 1_250_000_000_000) by (nonlinear_arith)
        requires
            -1_000_500 <= a <= 1_000_500,
            -1_000_500 <= b <= 1_000_500,
    {
    }
}

/// The squares of the components of a quaternion of a norm near one are
/// small.
proof fn lemma_squares_bounded(q: Components)
    requires
        -1_000_500 <= q.x <= 1_000_500,
        -1_000_500 <= q.y <= 1_000_500,
        -1_000_500 <= q.z <= 1_000_500,
        -1_000_500 <= q.w <= 1_000_500,
    ensures
        product_small(q.x, q.x) && product_small(q.y, q.y) && product_small(q.z, q.z)
            && product_small(q.w, q.w),
        q.x * q.x >= 0 && q.y * q.y >= 0 && q.z * q.z >= 0 && q.w * q.w >= 0,
{
    lemma_product_small(q.x, q.x);
    lemma_product_small(q.y, q.y);
    lemma_product_small(q.z, q.z);
    lemma_product_small(q.w, q.w);
    assert(q.x * q.x >= 0 && q.y * q.y >= 0 && q.z * q.z >= 0 && q.w * q.w >= 0)
        by (nonlinear_arith);
}

/// A component near one at most, over a norm of at least a half, is at most
/// a little over two.
proof fn lemma_scaled_component(c: int, n: int)
    requires
        -1_000_500 <= c <= 1_000_500,
        500_000 <= n <= 1_000_500,
    ensures
        -1_000_500 * 1_000_000 <= c * ONE <= 1_000_500 * 1_000_000,
        -2_100_000 <= spec_div_round(c * ONE, n) <= 2_100_000,
{
    assert(-1_000_500 * 1_000_000 <= c * ONE <= 1_000_500 * 1_000_000) by (nonlinear_arith)
        requires
            -1_000_500 <= c <= 1_000_500,
            ONE == 1_000_000,
    {
    }
    assert(1_000_500 * 1_000_000 <= 2_100_000 * n) by (nonlinear_arith)
        requires
            500_000 <= n,
    {
    }
    lemma_div_round_magnitude(c * ONE, n, 2_100_000);
}

} // verus!
