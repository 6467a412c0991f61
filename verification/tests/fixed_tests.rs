use amm_router::fixed::{isqrt, mul_div, rel_change_is_small, sat_add, SCALE};

#[test]
fn isqrt_small_values() {
    assert_eq!(isqrt(0), 0);
    assert_eq!(isqrt(1), 1);
    assert_eq!(isqrt(2), 1);
    assert_eq!(isqrt(3), 1);
    assert_eq!(isqrt(4), 2);
    assert_eq!(isqrt(99), 9);
    assert_eq!(isqrt(100), 10);
}

#[test]
fn isqrt_fixed_point_reserves() {
    // sqrt((10 * SCALE) * (40 * SCALE)) == 20 * SCALE: the geometric
    // liquidity of a (10, 40) pool is exactly 20 in fixed point.
    let r0 = 10u128 * SCALE as u128;
    let r1 = 40u128 * SCALE as u128;
    assert_eq!(isqrt(r0 * r1), 20 * SCALE);
}

#[test]
fn isqrt_huge_value() {
    // The largest possible argument: the square root must still fit.
    assert_eq!(isqrt(u128::MAX), u64::MAX);
}

#[test]
fn mul_div_exact_and_truncating() {
    assert_eq!(mul_div(6, 7, 3), 14);
    // 5 * 40 / 15 = 13.33... in fixed point, truncated.
    assert_eq!(
        mul_div(5 * SCALE, 40 * SCALE, 15 * SCALE),
        13_333_333_333
    );
}

#[test]
fn mul_div_zero_denominator_is_max() {
    assert_eq!(mul_div(1, 1, 0), u64::MAX);
    assert_eq!(mul_div(0, 0, 0), u64::MAX);
}

#[test]
fn mul_div_saturates() {
    assert_eq!(mul_div(u64::MAX, u64::MAX, 1), u64::MAX);
}

#[test]
fn sat_add_saturates() {
    assert_eq!(sat_add(1, 2), 3);
    assert_eq!(sat_add(u64::MAX, 1), u64::MAX);
    assert_eq!(sat_add(u64::MAX - 1, 1), u64::MAX);
}

#[test]
fn rel_change_tolerance() {
    // No change at all is always within tolerance.
    assert!(rel_change_is_small(SCALE, SCALE));
    // A one-unit step at price 1.0 is a relative change of 1e-9, far above
    // the 1e-12 tolerance.
    assert!(!rel_change_is_small(SCALE, SCALE + 1));
    // A vanished old price never counts as converged.
    assert!(!rel_change_is_small(0, 0));
}
