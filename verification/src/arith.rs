//! Integer helpers shared by the fixed-point computations: division rounded
//! to the nearest integer and the integer square root.
use vstd::prelude::*;

verus! {

/// The quotient `n / d` rounded to the nearest integer, halves away from zero.
pub open spec fn spec_div_round(n: int, d: int) -> int {
    if n >= 0 {
        (2 * n + d) / (2 * d)
    } else {
        -((2 * (-n) + d) / (2 * d))
    }
}

/// The largest magnitude of a dividend that [`div_round`] accepts.
pub const DIVIDEND_LIMIT: i128 = 0x2000_0000_0000_0000_0000_0000_0000_0000;

/// The largest divisor that [`div_round`] accepts.
pub const DIVISOR_LIMIT: i128 = 0x1_0000_0000_0000_0000;

/// Divides `n` by `d`, rounding to the nearest integer.
pub fn div_round(n: i128, d: i128) -> (q: i128)
    requires
        0 < d <= DIVISOR_LIMIT,
        -DIVIDEND_LIMIT <= n <= DIVIDEND_LIMIT,
    ensures
        q == spec_div_round(n as int, d as int),
{
    if n >= 0 {
        (2 * n + d) / (2 * d)
    } else {
        -((2 * (-n) + d) / (2 * d))
    }
}

/// Rounded division keeps the sign of the dividend and never exceeds it in
/// magnitude when the divisor is at least one.
pub proof fn lemma_div_round_bounds(n: int, d: int)
    requires
        d > 0,
    ensures
        n >= 0 ==> 0 <= spec_div_round(n, d) <= n,
        n <= 0 ==> n <= spec_div_round(n, d) <= 0,
        n == 0 ==> spec_div_round(n, d) == 0,
{
    let m: int = if n >= 0 { n } else { -n };
    let q: int = (2 * m + d) / (2 * d);
    assert(0 <= q <= m) by (nonlinear_arith)
        requires
            m >= 0,
            d > 0,
            q == (2 * m + d) / (2 * d),
    {
        // q * 2d <= 2m + d, and q > m would give 2d(m + 1) <= 2m + d.
    }
}

/// An exact quotient is returned unchanged: `(k * d) / d` rounds to `k`.
pub proof fn lemma_div_round_exact(k: int, d: int)
    requires
        d > 0,
    ensures
        spec_div_round(k * d, d) == k,
{
    let m: int = if k >= 0 { k } else { -k };
    assert((2 * (m * d) + d) / (2 * d) == m) by (nonlinear_arith)
        requires
            m >= 0,
            d > 0,
    {
    }
    assert(k >= 0 ==> k * d >= 0 && k * d == m * d) by (nonlinear_arith)
        requires
            d > 0,
            m == if k >= 0 { k } else { -k },
    {
    }
    assert(k < 0 ==> k * d < 0 && -(k * d) == m * d) by (nonlinear_arith)
        requires
            d > 0,
            m == if k >= 0 { k } else { -k },
    {
    }
}

/// Rounded division is monotonic in the dividend.
pub proof fn lemma_div_round_monotonic(a: int, b: int, d: int)
    requires
        d > 0,
        a <= b,
    ensures
        spec_div_round(a, d) <= spec_div_round(b, d),
{
    if a >= 0 {
        vstd::arithmetic::div_mod::lemma_div_is_ordered(2 * a + d, 2 * b + d, 2 * d);
    } else if b < 0 {
        vstd::arithmetic::div_mod::lemma_div_is_ordered(2 * (-b) + d, 2 * (-a) + d, 2 * d);
    } else {
        lemma_div_round_bounds(a, d);
        lemma_div_round_bounds(b, d);
    }
}

/// Rounded division misses the exact quotient by at most a half.
pub proof fn lemma_div_round_error(x: int, d: int)
    requires
        d > 0,
    ensures
        -d <= 2 * (d * spec_div_round(x, d) - x) <= d,
{
    let m: int = if x >= 0 { x } else { -x };
    let q: int = (2 * m + d) / (2 * d);
    assert(-d <= 2 * (d * q - m) <= d) by (nonlinear_arith)
        requires
            m >= 0,
            d > 0,
            q == (2 * m + d) / (2 * d),
    {
    }
    if x < 0 {
        assert(d * (-q) - x == -(d * q - m)) by (nonlinear_arith)
            requires
                m == -x,
        {
        }
    }
}

/// A dividend of at most `m` times the divisor in magnitude gives a rounded
/// quotient of at most `m` in magnitude.
pub proof fn lemma_div_round_magnitude(n: int, d: int, m: int)
    requires
        d > 0,
        -(m * d) <= n <= m * d,
    ensures
        -m <= spec_div_round(n, d) <= m,
{
    lemma_div_round_exact(m, d);
    lemma_div_round_exact(-m, d);
    assert((-m) * d == -(m * d)) by (nonlinear_arith);
    lemma_div_round_monotonic(n, m * d, d);
    lemma_div_round_monotonic((-m) * d, n, d);
}

/// A fraction `num / den` between zero and one of a quantity `d` lies
/// between zero and `d`, and the whole of it is `d`.
pub proof fn lemma_div_round_fraction(d: int, num: int, den: int)
    requires
        0 <= num <= den,
        0 < den,
    ensures
        d >= 0 ==> 0 <= d * num <= d * den,
        d <= 0 ==> d * den <= d * num <= 0,
        d >= 0 ==> 0 <= spec_div_round(d * num, den) <= d,
        d <= 0 ==> d <= spec_div_round(d * num, den) <= 0,
        num == den ==> spec_div_round(d * num, den) == d,
        num == 0 ==> spec_div_round(d * num, den) == 0,
{
    assert(d >= 0 ==> 0 <= d * num <= d * den) by (nonlinear_arith)
        requires
            0 <= num <= den,
    {
    }
    assert(d <= 0 ==> d * den <= d * num <= 0) by (nonlinear_arith)
        requires
            0 <= num <= den,
    {
    }
    assert(d * 0 == 0) by (nonlinear_arith);
    lemma_div_round_exact(d, den);
    lemma_div_round_exact(0, den);
    if d >= 0 {
        lemma_div_round_monotonic(0, d * num, den);
        lemma_div_round_monotonic(d * num, d * den, den);
    } else {
        lemma_div_round_monotonic(d * num, 0, den);
        lemma_div_round_monotonic(d * den, d * num, den);
    }
}

/// Whether `r` is the integer square root of `n`: the largest integer whose
/// square does not exceed `n`.
pub open spec fn is_isqrt(n: int, r: int) -> bool {
    0 <= r && r * r <= n && n < (r + 1) * (r + 1)
}

/// The integer square root of `n` (zero for negative `n`).
pub open spec fn spec_isqrt(n: int) -> int
    decreases n,
{
    if n <= 0 {
        0
    } else {
        let r = spec_isqrt(n - 1);
        if (r + 1) * (r + 1) <= n {
            r + 1
        } else {
            r
        }
    }
}

/// [`spec_isqrt`] is the integer square root.
pub proof fn lemma_isqrt_is_root(n: int)
    requires
        n >= 0,
    ensures
        is_isqrt(n, spec_isqrt(n)),
    decreases n,
{
    if n > 0 {
        lemma_isqrt_is_root(n - 1);
        let r = spec_isqrt(n - 1);
        assert((r + 2) * (r + 2) > (r + 1) * (r + 1)) by (nonlinear_arith)
            requires
                r >= 0,
        {
        }
    }
}

/// The integer square root is unique.
pub proof fn lemma_isqrt_unique(n: int, r: int)
    requires
        is_isqrt(n, r),
    ensures
        r == spec_isqrt(n),
{
    lemma_isqrt_is_root(n);
    let s = spec_isqrt(n);
    assert(r == s) by (nonlinear_arith)
        requires
            0 <= r,
            r * r <= n,
            n < (r + 1) * (r + 1),
            0 <= s,
            s * s <= n,
            n < (s + 1) * (s + 1),
    {
    }
}

/// Computes the integer square root by bisection.
pub fn isqrt(n: u128) -> (r: u64)
    ensures
        r == spec_isqrt(n as int),
        is_isqrt(n as int, r as int),
{
    let mut lo: u128 = 0;
    let mut hi: u128 = 0x1_0000_0000_0000_0000;
    assert(hi * hi > n) by (nonlinear_arith)
        requires
            hi == 0x1_0000_0000_0000_0000u128,
            n <= u128::MAX,
    {
    }
    while hi - lo > 1
        invariant
            lo < hi <= 0x1_0000_0000_0000_0000,
            lo * lo <= n,
            n < hi * hi,
        decreases hi - lo,
    {
        let mid: u128 = lo + (hi - lo) / 2;
        assert(mid * mid <= u128::MAX) by (nonlinear_arith)
            requires
                mid < 0x1_0000_0000_0000_0000,
        {
        }
        if mid * mid <= n {
            lo = mid;
        } else {
            hi = mid;
        }
    }
    proof {
        assert(hi == lo + 1);
        lemma_isqrt_unique(n as int, lo as int);
    }
    lo as u64
}

} // verus!
