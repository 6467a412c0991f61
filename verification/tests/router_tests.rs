use amm_router::router::liquidities::PairwiseLiquidities;
use amm_router::router::{Router, SolveError};
use amm_router::uni_v2_pool::UniV2Pool;

const SCALE: u64 = 1_000_000_000;

fn s(name: &str) -> String {
    name.to_string()
}

fn pool(t0: &str, t1: &str, whole0: u64, whole1: u64) -> UniV2Pool {
    UniV2Pool::new(s(t0), s(t1), whole0 * SCALE, whole1 * SCALE)
}

/// The four-token pool network used by the larger scenarios.
fn demo_pools() -> Vec<UniV2Pool> {
    vec![
        pool("ETH", "USDC", 2_000, 2_000_000),
        pool("ETH", "USDC", 1_000, 1_000_000),
        pool("ETH", "DAI", 1_000, 900_000),
        pool("ETH", "DAI", 3_000, 2_800_000),
        pool("ETH", "DAI", 3_000, 3_100_000),
        pool("DAI", "USDC", 1_000_000, 1_000_000),
        pool("DAI", "USDC", 2_000_000, 2_000_000),
        pool("DAI", "USDT", 1_000_000, 900_000),
        pool("DAI", "USDT", 900_000, 1_000_000),
        pool("ETH", "USDT", 2_000, 2_000_000),
        pool("ETH", "USDT", 10_000, 10_000_000),
    ]
}

#[test]
fn pairwise_table_is_symmetric() {
    let mut table = PairwiseLiquidities::with_size(3);
    assert_eq!(table.get(0, 2), 0);
    *table.get_mut(2, 1) = 7;
    assert_eq!(table.get(1, 2), 7);
    assert_eq!(table.get(2, 1), 7);
    *table.get_mut(0, 1) += 5;
    assert_eq!(table.get(1, 0), 5);
}

#[test]
fn aggregation_symmetry() {
    let router = Router::new(demo_pools());
    let names = ["ETH", "USDC", "DAI", "USDT"];
    for a in names.iter() {
        for b in names.iter() {
            let ab = router.liquidity_between(&s(a), &s(b)).unwrap();
            let ba = router.liquidity_between(&s(b), &s(a)).unwrap();
            assert_eq!(ab, ba);
        }
    }
    // One aggregated edge checked exactly: the two ETH/USDC pools contribute
    // sqrt(2000 * 2000000) + sqrt(1000 * 1000000) = 63245.55... + 31622.77...
    let eth_usdc = router.liquidity_between(&s("ETH"), &s("USDC")).unwrap();
    let expected = amm_router::fixed::isqrt(
        (2_000u128 * SCALE as u128) * (2_000_000u128 * SCALE as u128),
    ) + amm_router::fixed::isqrt((1_000u128 * SCALE as u128) * (1_000_000u128 * SCALE as u128));
    assert_eq!(eth_usdc, expected);
}

#[test]
fn construction_totals_and_prices() {
    let router = Router::new(demo_pools());
    assert_eq!(router.token_count(), 4);
    // ETH total: 2000 + 1000 + 1000 + 3000 + 3000 + 2000 + 10000 = 22000.
    assert_eq!(router.total_reserve(&s("ETH")), Some(22_000 * SCALE));
    // USDT total: 900000 + 1000000 + 2000000 + 10000000 = 13900000.
    assert_eq!(router.total_reserve(&s("USDT")), Some(13_900_000 * SCALE));
    // Every price starts at 1.0.
    for name in ["ETH", "USDC", "DAI", "USDT"].iter() {
        assert_eq!(router.price_of(&s(name)), Some(SCALE));
    }
}

#[test]
fn single_pool_reduction() {
    // One pool (A: 10, B: 40); selling x of A must pay x * 40 / (10 + x).
    let mut router = Router::new(vec![pool("A", "B", 10, 40)]);
    let out = router.solve(&s("A"), &s("B"), 5 * SCALE).unwrap();
    let expected: i128 = 13_333_333_333; // 5 * 40 / 15
    assert!((out - expected).abs() <= 1_000);

    let mut router = Router::new(vec![pool("A", "B", 10, 40)]);
    let out = router.solve(&s("A"), &s("B"), 20 * SCALE).unwrap();
    let expected: i128 = 26_666_666_666; // 20 * 40 / 30
    assert!((out - expected).abs() <= 1_000);
}

#[test]
fn aggregated_duplicate_pools() {
    // Two identical (10, 40) A-B pools behave as one (20, 80) pool:
    // selling 20 A pays exactly 20 * 80 / (20 + 20) = 40 B.
    let mut router = Router::new(vec![pool("A", "B", 10, 40), pool("A", "B", 10, 40)]);
    let out = router.solve(&s("A"), &s("B"), 20 * SCALE).unwrap();
    assert!((out - 40 * SCALE as i128).abs() <= 2);
    assert_eq!(router.total_reserve(&s("A")), Some(40 * SCALE));
    let b_after = router.total_reserve(&s("B")).unwrap() as i128;
    assert!((b_after - 40 * SCALE as i128).abs() <= 2);
}

#[test]
fn zero_trade_idempotence() {
    let mut router = Router::new(vec![pool("A", "B", 10, 40)]);
    let out = router.solve(&s("A"), &s("B"), 0).unwrap();
    assert!(out.abs() <= 100);
    let a = router.total_reserve(&s("A")).unwrap() as i128;
    let b = router.total_reserve(&s("B")).unwrap() as i128;
    assert!((a - 10 * SCALE as i128).abs() <= 100);
    assert!((b - 40 * SCALE as i128).abs() <= 100);
}

#[test]
fn zero_trade_after_real_trade() {
    let mut router = Router::new(vec![pool("A", "B", 10, 40)]);
    router.solve(&s("A"), &s("B"), 5 * SCALE).unwrap();
    let a_before = router.total_reserve(&s("A")).unwrap() as i128;
    let b_before = router.total_reserve(&s("B")).unwrap() as i128;
    let out = router.solve(&s("A"), &s("B"), 0).unwrap();
    assert!(out.abs() <= 100);
    let a_after = router.total_reserve(&s("A")).unwrap() as i128;
    let b_after = router.total_reserve(&s("B")).unwrap() as i128;
    assert!((a_after - a_before).abs() <= 100);
    assert!((b_after - b_before).abs() <= 100);
}

#[test]
fn reserve_conservation_for_untouched_tokens() {
    let mut router = Router::new(demo_pools());
    let dai_before = router.total_reserve(&s("DAI")).unwrap();
    let usdt_before = router.total_reserve(&s("USDT")).unwrap();
    let out = router.solve(&s("ETH"), &s("USDC"), 10 * SCALE).unwrap();
    assert!(out > 0);
    // Tokens not traded keep their totals exactly.
    assert_eq!(router.total_reserve(&s("DAI")), Some(dai_before));
    assert_eq!(router.total_reserve(&s("USDT")), Some(usdt_before));
}

#[test]
fn convergence_within_cap() {
    let mut router = Router::new(demo_pools());
    router.solve(&s("ETH"), &s("USDC"), 10 * SCALE).unwrap();
    let sweeps = router.last_sweep_count();
    assert!(sweeps >= 1);
    assert!(sweeps < 20_000);
    // A second solve starts from the previous equilibrium and converges
    // faster still.
    router.solve(&s("USDC"), &s("ETH"), 10_000 * SCALE).unwrap();
    assert!(router.last_sweep_count() < 20_000);
}

#[test]
fn sequential_trades_demo_network() {
    let mut router = Router::new(demo_pools());
    // The network starts away from equilibrium, so the first trade also
    // collects an arbitrage bonus.
    let usdc_out = router.solve(&s("ETH"), &s("USDC"), 10 * SCALE).unwrap();
    assert!((usdc_out - 21_003_820_313_795i128).abs() <= 1_000_000);
    // After equilibrium the conversion is fair: about 984 USDC per ETH.
    let eth_out = router.solve(&s("USDC"), &s("ETH"), 10_000 * SCALE).unwrap();
    assert!((eth_out - 10_157_159_531i128).abs() <= 1_000_000);
}

#[test]
fn gauge_invariance() {
    // The same network, listed so that a different token gets index 0 and
    // hence serves as the renormalization reference: the output amount only
    // depends on price ratios, so it must agree within tolerance.
    let mut forward = Router::new(vec![pool("A", "B", 10, 40)]);
    let mut reversed = Router::new(vec![pool("B", "A", 40, 10)]);
    let out_forward = forward.solve(&s("A"), &s("B"), 5 * SCALE).unwrap();
    let out_reversed = reversed.solve(&s("A"), &s("B"), 5 * SCALE).unwrap();
    assert!((out_forward - out_reversed).abs() <= 1_000);

    let mut demo = Router::new(demo_pools());
    let swapped: Vec<UniV2Pool> = demo_pools()
        .into_iter()
        .map(|p| UniV2Pool::new(p.token1, p.token0, p.reserve1, p.reserve0))
        .collect();
    let mut demo_swapped = Router::new(swapped);
    let a = demo.solve(&s("ETH"), &s("USDC"), 10 * SCALE).unwrap();
    let b = demo_swapped.solve(&s("ETH"), &s("USDC"), 10 * SCALE).unwrap();
    assert!((a - b).abs() <= 10_000_000);
}

#[test]
fn unknown_token_is_rejected() {
    let mut router = Router::new(vec![pool("A", "B", 10, 40)]);
    assert_eq!(
        router.solve(&s("X"), &s("B"), SCALE),
        Err(SolveError::UnknownToken)
    );
    assert_eq!(
        router.solve(&s("A"), &s("X"), SCALE),
        Err(SolveError::UnknownToken)
    );
    // Nothing was mutated.
    assert_eq!(router.total_reserve(&s("A")), Some(10 * SCALE));
    assert_eq!(router.total_reserve(&s("B")), Some(40 * SCALE));
    assert_eq!(router.price_of(&s("A")), Some(SCALE));
}

#[test]
fn same_token_is_rejected() {
    let mut router = Router::new(vec![pool("A", "B", 10, 40)]);
    assert_eq!(
        router.solve(&s("A"), &s("A"), SCALE),
        Err(SolveError::SameToken)
    );
    assert_eq!(router.total_reserve(&s("A")), Some(10 * SCALE));
}

#[test]
fn token_lookup() {
    let router = Router::new(vec![pool("A", "B", 10, 40), pool("B", "C", 1, 1)]);
    assert_eq!(router.token_count(), 3);
    assert_eq!(router.index_of(&s("A")), Some(0));
    assert_eq!(router.index_of(&s("B")), Some(1));
    assert_eq!(router.index_of(&s("C")), Some(2));
    assert_eq!(router.index_of(&s("D")), None);
}
