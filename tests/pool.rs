use liquidity_pool::fixed::{Dec, ONE};
use liquidity_pool::pool::{Pool, PoolError};
use liquidity_pool::resource::{Holding, ResourceId};

const TOKEN_A: ResourceId = ResourceId { bytes: [1; 30] };
const TOKEN_B: ResourceId = ResourceId { bytes: [2; 30] };
const TRACKING: ResourceId = ResourceId { bytes: [9; 30] };
const FOREIGN: ResourceId = ResourceId { bytes: [5; 30] };

fn units(n: i64) -> Dec {
    Dec::from_units(n)
}

fn holding(resource: ResourceId, n: i64) -> Holding {
    Holding::new(resource, units(n))
}

fn pool_with(a: i64, b: i64, fee: i64) -> Pool {
    let (pool, tracking) =
        Pool::instantiate_pool(holding(TOKEN_A, a), holding(TOKEN_B, b), units(fee), true, true, TRACKING).unwrap();
    assert_eq!(tracking.resource, TRACKING);
    assert_eq!(tracking.amount, units(100));
    pool
}

fn k_attos(pool: &Pool) -> i128 {
    pool.k().unwrap().attos
}

#[test]
fn zero_fee_output_and_constant_product() {
    let mut pool = pool_with(1000, 1000, 0);
    let quote = pool.calculate_output_amount(&TOKEN_A, units(100)).unwrap();
    assert_eq!(quote.attos, 90_909_090_909_090_909_090);
    let before = k_attos(&pool);
    assert_eq!(before, 1_000_000 * ONE);
    let out = pool.swap(holding(TOKEN_A, 100)).unwrap();
    assert_eq!(out.resource, TOKEN_B);
    assert_eq!(out.amount, quote);
    let after = k_attos(&pool);
    assert!(after >= before);
    assert!(after - before <= 1000);
    assert_eq!(after, 1_000_000_000_000_000_000_001_000);
}

#[test]
fn one_percent_fee_output_raises_product() {
    let mut pool = pool_with(1000, 1000, 1);
    let quote = pool.calculate_output_amount(&TOKEN_A, units(100)).unwrap();
    assert_eq!(quote.attos, 90_081_892_629_663_330_300);
    let before = k_attos(&pool);
    let out = pool.swap(holding(TOKEN_A, 100)).unwrap();
    assert_eq!(out.amount, quote);
    let after = k_attos(&pool);
    assert!(after > before);
    assert_eq!(after, 1_000_909_918_107_370_336_670_000);
}

#[test]
fn unequal_deposit_refunds_one_side() {
    let mut pool = pool_with(1000, 1000, 0);
    let (rest_a, rest_b, minted) = pool.add_liquidity(holding(TOKEN_A, 50), holding(TOKEN_B, 60)).unwrap();
    assert_eq!(rest_a.resource, TOKEN_A);
    assert_eq!(rest_b.resource, TOKEN_B);
    assert!(rest_a.is_empty() != rest_b.is_empty());
    assert_eq!(rest_a.amount, units(0));
    assert_eq!(rest_b.amount, units(10));
    // 50 of A taken in full, and 50 * 1000 / 1000 of B.
    assert_eq!(pool.reserve(&TOKEN_A).unwrap(), units(1050));
    assert_eq!(pool.reserve(&TOKEN_B).unwrap(), units(1050));
    assert_eq!(minted.resource, TRACKING);
    assert_eq!(minted.amount, units(5));
    assert_eq!(pool.tracking_supply(), units(105));
}

#[test]
fn quarter_of_supply_redeems_quarter_of_reserves() {
    let mut pool = pool_with(1000, 1000, 0);
    let (a, b) = pool.remove_liquidity(holding(TRACKING, 25)).unwrap();
    assert_eq!(a.resource, TOKEN_A);
    assert_eq!(a.amount, units(250));
    assert_eq!(b.resource, TOKEN_B);
    assert_eq!(b.amount, units(250));
    assert_eq!(pool.reserve(&TOKEN_A).unwrap(), units(750));
    assert_eq!(pool.tracking_supply(), units(75));
}

#[test]
fn creation_orders_tokens() {
    let (pool, _) =
        Pool::instantiate_pool(holding(TOKEN_B, 7), holding(TOKEN_A, 3), units(2), true, true, TRACKING).unwrap();
    assert_eq!(pool.addresses(), vec![TOKEN_A, TOKEN_B]);
    assert_eq!(pool.reserve(&TOKEN_A).unwrap(), units(3));
    assert_eq!(pool.reserve(&TOKEN_B).unwrap(), units(7));
    assert_eq!(pool.fee_to_pool(), units(2));
    assert_eq!(pool.tracking_token_address(), TRACKING);
    assert_eq!(pool.k().unwrap(), units(21));
}

#[test]
fn creation_rejects_bad_input() {
    let make = |a: Holding, b: Holding, fee: Dec, fa: bool, fb: bool| {
        Pool::instantiate_pool(a, b, fee, fa, fb, TRACKING).map(|_| ())
    };
    let a = holding(TOKEN_A, 10);
    let b = holding(TOKEN_B, 10);
    assert_eq!(make(a, holding(TOKEN_A, 5), units(1), true, true), Err(PoolError::Validation));
    assert_eq!(make(a, b, units(1), false, true), Err(PoolError::Validation));
    assert_eq!(make(a, b, units(1), true, false), Err(PoolError::Validation));
    assert_eq!(make(holding(TOKEN_A, 0), b, units(1), true, true), Err(PoolError::Validation));
    assert_eq!(make(a, holding(TOKEN_B, 0), units(1), true, true), Err(PoolError::Validation));
    assert_eq!(make(a, b, units(101), true, true), Err(PoolError::Validation));
    assert_eq!(make(a, b, Dec { attos: -1 }, true, true), Err(PoolError::Validation));
    assert_eq!(make(a, b, units(100), true, true), Ok(()));
    assert_eq!(make(a, b, units(0), true, true), Ok(()));
}

#[test]
fn membership_queries() {
    let pool = pool_with(10, 20, 0);
    assert!(pool.belongs_to_pool(&TOKEN_A));
    assert!(pool.belongs_to_pool(&TOKEN_B));
    assert!(!pool.belongs_to_pool(&FOREIGN));
    assert!(!pool.belongs_to_pool(&TRACKING));
    assert!(pool.assert_belongs_to_pool(&TOKEN_B, String::from("Test")).is_ok());
    let err = pool.assert_belongs_to_pool(&FOREIGN, String::from("Swap")).unwrap_err();
    assert_eq!(err.error, PoolError::NotPoolMember);
    assert_eq!(err.label, "Swap");
    assert_eq!(pool.other_resource_address(&TOKEN_A), Ok(TOKEN_B));
    assert_eq!(pool.other_resource_address(&TOKEN_B), Ok(TOKEN_A));
    assert_eq!(pool.other_resource_address(&FOREIGN), Err(PoolError::NotPoolMember));
}

#[test]
fn foreign_tokens_are_refused() {
    let mut pool = pool_with(1000, 1000, 0);
    assert_eq!(pool.calculate_output_amount(&FOREIGN, units(1)), Err(PoolError::NotPoolMember));
    assert_eq!(pool.calculate_input_amount(&FOREIGN, units(1)), Err(PoolError::NotPoolMember));
    assert_eq!(pool.swap(holding(FOREIGN, 1)), Err(PoolError::NotPoolMember));
    assert_eq!(pool.swap_exact_tokens_for_tokens(holding(FOREIGN, 1), units(0)), Err(PoolError::NotPoolMember));
    assert_eq!(pool.swap_tokens_for_exact_tokens(holding(FOREIGN, 1), units(1)), Err(PoolError::NotPoolMember));
    assert_eq!(
        pool.add_liquidity(holding(TOKEN_A, 1), holding(FOREIGN, 1)),
        Err(PoolError::NotPoolMember)
    );
    assert_eq!(pool.remove_liquidity(holding(TOKEN_A, 1)), Err(PoolError::Validation));
    assert_eq!(pool.k().unwrap(), units(1_000_000));
}

#[test]
fn input_quote_matches_formula() {
    let pool = pool_with(1000, 1000, 0);
    let need = pool.calculate_input_amount(&TOKEN_B, units(100)).unwrap();
    assert_eq!(need.attos, 111_111_111_111_111_111_112);
    assert_eq!(pool.calculate_input_amount(&TOKEN_B, units(1000)), Err(PoolError::InsufficientLiquidity));
    assert_eq!(pool.calculate_input_amount(&TOKEN_B, units(2000)), Err(PoolError::InsufficientLiquidity));
}

#[test]
fn input_for_output_round_trip() {
    let pool = pool_with(1000, 1000, 1);
    let a = units(100);
    let out = pool.calculate_output_amount(&TOKEN_A, a).unwrap();
    let back = pool.calculate_input_amount(&TOKEN_B, out).unwrap();
    assert_eq!(back.attos, a.attos);
}

#[test]
fn exact_input_swap_checks_minimum() {
    let mut pool = pool_with(1000, 1000, 0);
    let before = pool.k().unwrap();
    assert_eq!(
        pool.swap_exact_tokens_for_tokens(holding(TOKEN_A, 100), units(91)),
        Err(PoolError::Slippage)
    );
    assert_eq!(pool.k().unwrap(), before);
    assert_eq!(pool.reserve(&TOKEN_A).unwrap(), units(1000));
    let out = pool.swap_exact_tokens_for_tokens(holding(TOKEN_A, 100), units(90)).unwrap();
    assert_eq!(out.amount.attos, 90_909_090_909_090_909_090);
    assert_eq!(pool.reserve(&TOKEN_A).unwrap(), units(1100));
}

#[test]
fn exact_output_swap_returns_change() {
    let mut pool = pool_with(1000, 1000, 0);
    let (out, rest) = pool.swap_tokens_for_exact_tokens(holding(TOKEN_A, 200), units(100)).unwrap();
    assert_eq!(out.resource, TOKEN_B);
    assert_eq!(out.amount, units(100));
    assert_eq!(rest.resource, TOKEN_A);
    assert_eq!(rest.amount.attos, 200 * ONE - 111_111_111_111_111_111_112);
    assert_eq!(pool.reserve(&TOKEN_B).unwrap(), units(900));
    assert_eq!(pool.reserve(&TOKEN_A).unwrap().attos, 1000 * ONE + 111_111_111_111_111_111_112);
    assert_eq!(pool.k().unwrap().attos, 1_000_000_000_000_000_000_000_800);
}

#[test]
fn exact_output_swap_does_not_lower_product() {
    let mut pool = pool_with(1000, 1000, 0);
    let before = k_attos(&pool);
    pool.swap_tokens_for_exact_tokens(holding(TOKEN_A, 500), units(100)).unwrap();
    assert!(k_attos(&pool) >= before);
    let mut tiny = Pool::instantiate_pool(
        Holding::new(TOKEN_A, Dec { attos: 1 }),
        Holding::new(TOKEN_B, Dec { attos: 3 }),
        units(0),
        true,
        true,
        TRACKING,
    )
    .unwrap()
    .0;
    // 1 * 1 attos rounds up to 1 atto, which over 2 attos asks for half a unit.
    let (out, rest) = tiny.swap_tokens_for_exact_tokens(holding(TOKEN_A, 1), Dec { attos: 1 }).unwrap();
    assert_eq!(out.amount.attos, 1);
    assert_eq!(rest.amount.attos, ONE / 2);
    assert_eq!(tiny.reserve(&TOKEN_A).unwrap().attos, 1 + ONE / 2);
    assert_eq!(tiny.reserve(&TOKEN_B).unwrap().attos, 2);
}

#[test]
fn near_equal_ratio_takes_all_of_the_second_token() {
    let (mut pool, _) = Pool::instantiate_pool(
        Holding::new(TOKEN_A, Dec { attos: 10 * ONE - 5 }),
        Holding::new(TOKEN_B, units(10)),
        units(0),
        true,
        true,
        TRACKING,
    )
    .unwrap();
    let deposit_a = Holding::new(TOKEN_A, Dec { attos: 10 * ONE - 1 });
    let (rest_a, rest_b, minted) = pool.add_liquidity(deposit_a, holding(TOKEN_B, 10)).unwrap();
    assert_eq!(rest_a.amount.attos, 4);
    assert!(rest_b.is_empty());
    assert_eq!(pool.reserve(&TOKEN_A).unwrap().attos, 2 * (10 * ONE - 5));
    assert_eq!(pool.reserve(&TOKEN_B).unwrap(), units(20));
    assert_eq!(minted.amount, units(100));
}

#[test]
fn exact_ratio_test_uses_exact_products() {
    let (mut pool, _) = Pool::instantiate_pool(
        Holding::new(TOKEN_A, Dec { attos: 3 }),
        Holding::new(TOKEN_B, Dec { attos: 2 }),
        units(0),
        true,
        true,
        TRACKING,
    )
    .unwrap();
    let one_atto = Dec { attos: 1 };
    let (rest_a, rest_b, minted) =
        pool.add_liquidity(Holding::new(TOKEN_A, one_atto), Holding::new(TOKEN_B, one_atto)).unwrap();
    assert!(rest_a.is_empty());
    assert_eq!(rest_b.amount.attos, 1);
    assert_eq!(pool.reserve(&TOKEN_A).unwrap().attos, 4);
    assert_eq!(pool.reserve(&TOKEN_B).unwrap().attos, 2);
    assert_eq!(minted.amount.attos, 33_333_333_333_333_333_333);
}

#[test]
fn exact_output_swap_needs_enough_input() {
    let mut pool = pool_with(1000, 1000, 0);
    assert_eq!(
        pool.swap_tokens_for_exact_tokens(holding(TOKEN_A, 111), units(100)),
        Err(PoolError::InsufficientInput)
    );
    assert_eq!(
        pool.swap_tokens_for_exact_tokens(holding(TOKEN_A, 5000), units(1000)),
        Err(PoolError::InsufficientLiquidity)
    );
    assert_eq!(pool.reserve(&TOKEN_A).unwrap(), units(1000));
    assert_eq!(pool.reserve(&TOKEN_B).unwrap(), units(1000));
}

#[test]
fn proportional_deposit_mints_in_proportion() {
    let mut pool = pool_with(1000, 1000, 0);
    let (rest_a, rest_b, minted) = pool.add_liquidity(holding(TOKEN_B, 100), holding(TOKEN_A, 100)).unwrap();
    assert!(rest_a.is_empty() && rest_b.is_empty());
    assert_eq!(minted.amount, units(10));
    assert_eq!(pool.tracking_supply(), units(110));
    assert_eq!(pool.k().unwrap(), units(1_210_000));
}

#[test]
fn deposit_then_redeem_gives_back_no_more() {
    let mut pool = pool_with(1000, 3000, 0);
    let (_, _, minted) = pool.add_liquidity(holding(TOKEN_A, 7), holding(TOKEN_B, 21)).unwrap();
    let (a, b) = pool.remove_liquidity(minted).unwrap();
    assert!(a.amount.attos <= 7 * ONE);
    assert!(b.amount.attos <= 21 * ONE);
    assert_eq!(minted.amount.attos, 700_000_000_000_000_000);
    assert_eq!(a.amount.attos, 6_999_999_999_999_999_176);
    assert_eq!(b.amount.attos, 20_999_999_999_999_997_528);
}

#[test]
fn add_liquidity_rejects_empty_and_doubled() {
    let mut pool = pool_with(1000, 1000, 0);
    assert_eq!(pool.add_liquidity(holding(TOKEN_A, 0), holding(TOKEN_B, 1)), Err(PoolError::Validation));
    assert_eq!(pool.add_liquidity(holding(TOKEN_A, 1), holding(TOKEN_A, 1)), Err(PoolError::Validation));
    assert_eq!(pool.tracking_supply(), units(100));
}

#[test]
fn drained_pool_is_refilled_with_fresh_supply() {
    let mut pool = pool_with(1000, 1000, 0);
    let (a, b) = pool.remove_liquidity(holding(TRACKING, 100)).unwrap();
    assert_eq!(a.amount, units(1000));
    assert_eq!(b.amount, units(1000));
    assert_eq!(pool.tracking_supply(), units(0));
    assert_eq!(pool.k().unwrap(), units(0));
    let (rest_a, rest_b, minted) = pool.add_liquidity(holding(TOKEN_A, 5), holding(TOKEN_B, 8)).unwrap();
    assert!(rest_a.is_empty() && rest_b.is_empty());
    assert_eq!(minted.amount, units(100));
    assert_eq!(pool.reserve(&TOKEN_B).unwrap(), units(8));
}

#[test]
fn redeeming_more_than_supply_is_refused() {
    let mut pool = pool_with(1000, 1000, 0);
    assert_eq!(pool.remove_liquidity(holding(TRACKING, 101)), Err(PoolError::InsufficientLiquidity));
    assert_eq!(pool.tracking_supply(), units(100));
}

#[test]
fn higher_fee_buys_less() {
    let outputs: Vec<i128> = [0i64, 1, 5, 50, 100]
        .iter()
        .map(|&fee| pool_with(1000, 1000, fee).calculate_output_amount(&TOKEN_A, units(100)).unwrap().attos)
        .collect();
    for pair in outputs.windows(2) {
        assert!(pair[1] <= pair[0]);
    }
    assert_eq!(outputs[2], 86_757_990_867_579_908_675);
    assert_eq!(outputs[4], 0);
}

#[test]
fn overflow_is_reported() {
    let big = 100_000_000_000_000_000_000i128;
    let (pool, _) = Pool::instantiate_pool(
        Holding::new(TOKEN_A, Dec { attos: big * ONE }),
        Holding::new(TOKEN_B, Dec { attos: big * ONE }),
        units(0),
        true,
        true,
        TRACKING,
    )
    .unwrap();
    assert_eq!(pool.k(), Err(PoolError::Arithmetic));
    let mut small = pool_with(1, 1, 0);
    assert_eq!(
        small.swap(Holding::new(TOKEN_A, Dec { attos: i128::MAX })),
        Err(PoolError::Arithmetic)
    );
    assert_eq!(small.reserve(&TOKEN_A).unwrap(), units(1));
}
