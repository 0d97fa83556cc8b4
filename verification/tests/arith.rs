use curve_core::arith::{div_round, isqrt};

#[test]
fn div_round_rounds_to_nearest() {
    assert_eq!(div_round(7, 2), 4);
    assert_eq!(div_round(-7, 2), -4);
    assert_eq!(div_round(5, 10), 1);
    assert_eq!(div_round(-5, 10), -1);
    assert_eq!(div_round(4, 10), 0);
    assert_eq!(div_round(14, 10), 1);
    assert_eq!(div_round(15, 10), 2);
    assert_eq!(div_round(0, 3), 0);
}

#[test]
fn div_round_is_exact_on_multiples() {
    let mut k: i128 = -50;
    while k <= 50 {
        assert_eq!(div_round(k * 1_000_000, 1_000_000), k);
        k += 1;
    }
}

#[test]
fn isqrt_of_squares_and_neighbours() {
    assert_eq!(isqrt(0), 0);
    assert_eq!(isqrt(1), 1);
    assert_eq!(isqrt(3), 1);
    assert_eq!(isqrt(4), 2);
    assert_eq!(isqrt(24), 4);
    assert_eq!(isqrt(25), 5);
    assert_eq!(isqrt(26), 5);
    assert_eq!(isqrt(2_000_000_000_000), 1_414_213);
    assert_eq!(isqrt(7_000_000_000_000), 2_645_751);
}

#[test]
fn isqrt_at_the_limits() {
    assert_eq!(isqrt(u128::MAX), u64::MAX);
    let r: u128 = u64::MAX as u128;
    assert_eq!(isqrt(r * r), u64::MAX);
    assert_eq!(isqrt(r * r - 1), u64::MAX - 1);
}

#[test]
fn isqrt_brackets_its_argument() {
    let mut n: u128 = 0;
    while n < 5000 {
        let r = isqrt(n) as u128;
        assert!(r * r <= n);
        assert!(n < (r + 1) * (r + 1));
        n += 1;
    }
}
