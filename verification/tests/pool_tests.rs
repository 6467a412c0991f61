use amm_router::uni_v2_pool::UniV2Pool;

const SCALE: u64 = 1_000_000_000;

fn pool_10_40() -> UniV2Pool {
    UniV2Pool::new("A".to_string(), "B".to_string(), 10 * SCALE, 40 * SCALE)
}

#[test]
fn output_amount_closed_form() {
    let pool = pool_10_40();
    // 5 * 40 / (10 + 5) = 13.333... in fixed point, truncated.
    let out = pool.get_output_amount(&"A".to_string(), 5 * SCALE);
    assert_eq!(out, 13_333_333_333);
}

#[test]
fn output_amount_other_side() {
    let pool = pool_10_40();
    // 40 * 10 / (40 + 40) = 5 exactly.
    let out = pool.get_output_amount(&"B".to_string(), 40 * SCALE);
    assert_eq!(out, 5 * SCALE);
}

#[test]
fn output_amount_zero_input() {
    let pool = pool_10_40();
    assert_eq!(pool.get_output_amount(&"A".to_string(), 0), 0);
}

#[test]
fn spot_price_both_sides() {
    let pool = pool_10_40();
    // 10 / 40 = 0.25 and 40 / 10 = 4.0 in fixed point.
    assert_eq!(pool.get_spot_price(&"A".to_string()), SCALE / 4);
    assert_eq!(pool.get_spot_price(&"B".to_string()), 4 * SCALE);
}
