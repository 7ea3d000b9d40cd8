use swap_curves::calculator::{CurveCalculator, SwapWithoutFeesResult, TradeDirection};
use swap_curves::error::CurveError;
use swap_curves::stable_curve::{
    calculate_step, compute_d, compute_new_destination_amount, precise_share, settle_share,
    solve_new_destination_amount, StableCurve,
};
use swap_curves::wide::U256;

#[test]
fn invariant_of_equal_reserves_is_their_sum() {
    assert_eq!(compute_d(4, 12_345, 12_345), Ok(24_690));
    assert_eq!(compute_d(1, 1, 1), Ok(2));
    assert_eq!(
        compute_d(400, 1_000_000_000_000_000_000_000_000_000_000, 1_000_000_000_000_000_000_000_000_000_000),
        Ok(2_000_000_000_000_000_000_000_000_000_000)
    );
    assert_eq!(compute_d(u64::MAX, 1_000_000, 1_000_000), Ok(2_000_000));
}

#[test]
fn invariant_of_equal_reserves_overflows_when_too_large() {
    // (leverage + 2) * (2 r)^2 no longer fits in 256 bits
    assert_eq!(compute_d(4, 1 << 126, 1 << 126), Err(CurveError::Overflow));
    // r + r no longer fits in 128 bits
    assert_eq!(compute_d(4, 1 << 127, 1 << 127), Err(CurveError::Overflow));
}

#[test]
fn invariant_of_empty_pool_is_zero() {
    assert_eq!(compute_d(4, 0, 0), Ok(0));
    assert_eq!(compute_d(0, 0, 0), Ok(0));
    assert_eq!(compute_d(u64::MAX, 0, 0), Ok(0));
}

#[test]
fn invariant_exact_values() {
    assert_eq!(compute_d(4, 1_000_000, 2_000_000), Ok(2_940_557));
    assert_eq!(compute_d(400, 1_000_000, 2_000_000), Ok(2_999_068));
    assert_eq!(compute_d(400, 900_000, 2_000_000), Ok(2_898_789));
    assert_eq!(compute_d(1, 3, 5), Ok(8));
}

#[test]
fn invariant_errors() {
    // one empty side divides by zero
    assert_eq!(compute_d(4, 0, 5), Err(CurveError::DivisionByZero));
    assert_eq!(compute_d(4, 5, 0), Err(CurveError::DivisionByZero));
    // leverage - 1 falls below zero
    assert_eq!(compute_d(0, 5, 5), Err(CurveError::Overflow));
    // the sum of the reserves leaves 128 bits
    assert_eq!(compute_d(4, u128::MAX, 1), Err(CurveError::Overflow));
}

#[test]
fn step_exact_value() {
    // reserves (3, 5): D = 8, D_p = 8 * 8 / 6 * 8 / 10 = 8
    // (4 * 8 + 8 * 2) * 8 / (3 * 8 + 8 * 3) = 384 / 48
    let d = U256::from_u128(8);
    let d_p = U256::from_u128(8);
    assert_eq!(calculate_step(&d, 4, 8, &d_p), Ok(U256::from_u128(8)));
    // (2 * 10 + 7 * 2) * 9 / (1 * 9 + 7 * 3) = 306 / 30
    let d = U256::from_u128(9);
    let d_p = U256::from_u128(7);
    assert_eq!(calculate_step(&d, 2, 10, &d_p), Ok(U256::from_u128(10)));
    assert_eq!(calculate_step(&d, 0, 10, &d_p), Err(CurveError::Overflow));
    let zero = U256::zero();
    assert_eq!(calculate_step(&zero, 1, 10, &zero), Err(CurveError::DivisionByZero));
}

#[test]
fn new_destination_exact_values() {
    assert_eq!(compute_new_destination_amount(4, 1_100_000, 2_940_557), Ok(1_875_653));
    assert_eq!(compute_new_destination_amount(0, 10, 10), Err(CurveError::DivisionByZero));
    assert_eq!(compute_new_destination_amount(4, 0, 10), Err(CurveError::DivisionByZero));
    assert_eq!(compute_new_destination_amount(4, 10, u128::MAX), Err(CurveError::Overflow));
}

#[test]
fn swap_scenario_one_to_two_pool() {
    let curve = StableCurve { amp: 1 };
    let result = curve
        .swap_without_fees(100_000, 1_000_000, 2_000_000, TradeDirection::AtoB)
        .unwrap();
    assert_eq!(result.source_amount_swapped, 100_000);
    assert_eq!(result.destination_amount_swapped, 124_347);
    assert!(result.destination_amount_swapped > 0);
    // below the deposit scaled by the ratio of the reserves
    assert!(result.destination_amount_swapped < 100_000 * 2_000_000 / 1_000_000);
    let before = compute_d(4, 1_000_000, 2_000_000).unwrap();
    let after = compute_d(
        4,
        1_000_000 + result.source_amount_swapped,
        2_000_000 - result.destination_amount_swapped,
    )
    .unwrap();
    assert_eq!(before, 2_940_557);
    assert_eq!(after, 2_940_556);
    assert!(before.abs_diff(after) <= 1);
}

#[test]
fn swap_ignores_the_direction() {
    let curve = StableCurve { amp: 1 };
    assert_eq!(
        curve.swap_without_fees(100_000, 1_000_000, 2_000_000, TradeDirection::AtoB),
        curve.swap_without_fees(100_000, 1_000_000, 2_000_000, TradeDirection::BtoA)
    );
}

#[test]
fn swap_grows_with_the_amount_paid_in() {
    let curve = StableCurve { amp: 100 };
    let small = curve
        .swap_without_fees(1_000_000, 1_000_000_000, 1_000_000_000, TradeDirection::AtoB)
        .unwrap();
    let large = curve
        .swap_without_fees(100_000_000, 1_000_000_000, 1_000_000_000, TradeDirection::AtoB)
        .unwrap();
    assert_eq!(small.destination_amount_swapped, 999_996);
    assert!(small.destination_amount_swapped < large.destination_amount_swapped);
}

#[test]
fn swap_on_balanced_pool_lies_between_product_and_sum() {
    // constant product gives 1e9 - 1e18 / 1.1e9 = 90_909_091; constant sum gives 100_000_000
    let amounts: Vec<(u64, u128)> = vec![
        (1, 96_760_742),
        (1_000, 99_994_953),
        (100_000, 99_999_950),
    ];
    let mut last: u128 = 90_909_091;
    for (amp, expected) in amounts {
        let curve = StableCurve { amp };
        let result = curve
            .swap_without_fees(100_000_000, 1_000_000_000, 1_000_000_000, TradeDirection::AtoB)
            .unwrap();
        assert_eq!(
            result,
            SwapWithoutFeesResult {
                source_amount_swapped: 100_000_000,
                destination_amount_swapped: expected,
            }
        );
        assert!(result.destination_amount_swapped > last);
        assert!(result.destination_amount_swapped <= 100_000_000);
        last = result.destination_amount_swapped;
    }
}

#[test]
fn swap_large_amounts() {
    let curve = StableCurve { amp: 100 };
    assert_eq!(
        curve.swap_without_fees(
            100_000_000_000_000_000,
            1_000_000_000_000_000_000,
            1_000_000_000_000_000_000,
            TradeDirection::AtoB
        ),
        Ok(SwapWithoutFeesResult {
            source_amount_swapped: 100_000_000_000_000_000,
            destination_amount_swapped: 99_949_776_770_075_446,
        })
    );
}

#[test]
fn swap_errors() {
    // amp * 4 leaves 64 bits
    let curve = StableCurve { amp: 1 << 62 };
    assert_eq!(
        curve.swap_without_fees(1, 10, 10, TradeDirection::AtoB),
        Err(CurveError::Overflow)
    );
    // the new source reserve leaves 128 bits
    let curve = StableCurve { amp: 1 };
    assert_eq!(
        curve.swap_without_fees(u128::MAX, 1, 1, TradeDirection::AtoB),
        Err(CurveError::Overflow)
    );
    // an empty destination side divides by zero
    assert_eq!(
        curve.swap_without_fees(5, 10, 0, TradeDirection::AtoB),
        Err(CurveError::DivisionByZero)
    );
    // amp = 0 makes leverage - 1 fall below zero
    let curve = StableCurve::default();
    assert_eq!(curve.amp, 0);
    assert_eq!(
        curve.swap_without_fees(1, 10, 10, TradeDirection::AtoB),
        Err(CurveError::Overflow)
    );
    // the solver's estimate of the destination reserve lies above the reserve
    let curve = StableCurve { amp: 2 };
    assert_eq!(
        curve.swap_without_fees(0, 5, 2, TradeDirection::AtoB),
        Err(CurveError::InvalidAmount)
    );
}

#[test]
fn withdraw_nothing_burns_nothing() {
    let curve = StableCurve { amp: 100 };
    assert_eq!(
        curve.withdraw_single_token_type_exact_out(0, 1_000_000, 2_000_000, 3_000_000, TradeDirection::AtoB),
        Ok(0)
    );
    // no arithmetic is done: not even on amounts that would fail
    let curve = StableCurve { amp: u64::MAX };
    assert_eq!(
        curve.withdraw_single_token_type_exact_out(0, 0, u128::MAX, u128::MAX, TradeDirection::BtoA),
        Ok(0)
    );
}

#[test]
fn withdraw_of_the_reserve_or_more_is_invalid() {
    let curve = StableCurve { amp: 100 };
    assert_eq!(
        curve.withdraw_single_token_type_exact_out(1_000_000, 1_000_000, 2_000_000, 3_000_000, TradeDirection::AtoB),
        Err(CurveError::InvalidAmount)
    );
    assert_eq!(
        curve.withdraw_single_token_type_exact_out(10_000_000, 1_000_000, 2_000_000, 3_000_000, TradeDirection::AtoB),
        Err(CurveError::InvalidAmount)
    );
    assert_eq!(
        curve.withdraw_single_token_type_exact_out(2_000_000, 1_000_000, 2_000_000, 3_000_000, TradeDirection::BtoA),
        Err(CurveError::InvalidAmount)
    );
    // below the reserve of B, though above that of A
    assert!(curve
        .withdraw_single_token_type_exact_out(1_500_000, 1_000_000, 2_000_000, 3_000_000, TradeDirection::BtoA)
        .is_ok());
    // whatever else is wrong
    let curve = StableCurve { amp: u64::MAX };
    assert_eq!(
        curve.withdraw_single_token_type_exact_out(1, 1, 0, 3_000_000, TradeDirection::AtoB),
        Err(CurveError::InvalidAmount)
    );
}

#[test]
fn withdraw_exact_values() {
    let curve = StableCurve { amp: 100 };
    // D falls from 2_999_068 to 2_898_789: ceiling(100_279 * 3_000_000 / 2_999_068)
    assert_eq!(
        curve.withdraw_single_token_type_exact_out(100_000, 1_000_000, 2_000_000, 3_000_000, TradeDirection::AtoB),
        Ok(100_311)
    );
    assert_eq!(
        curve.withdraw_single_token_type_exact_out(100_000, 1_000_000, 2_000_000, 3_000_000, TradeDirection::BtoA),
        Ok(99_869)
    );
    let curve = StableCurve { amp: 1 };
    assert_eq!(
        curve.withdraw_single_token_type_exact_out(100_000, 1_000_000, 2_000_000, 3_000_000, TradeDirection::AtoB),
        Ok(118_908)
    );
    assert_eq!(
        curve.withdraw_single_token_type_exact_out(1, 10, 10, 1000, TradeDirection::AtoB),
        Ok(50)
    );
}

#[test]
fn withdraw_errors() {
    let curve = StableCurve { amp: 1 << 62 };
    assert_eq!(
        curve.withdraw_single_token_type_exact_out(1, 10, 10, 1000, TradeDirection::AtoB),
        Err(CurveError::Overflow)
    );
    let curve = StableCurve { amp: 1 };
    assert_eq!(
        curve.withdraw_single_token_type_exact_out(1, 10, 0, 1000, TradeDirection::AtoB),
        Err(CurveError::DivisionByZero)
    );
}

#[test]
fn withdraw_rounds_up_beyond_the_twelfth_decimal_place() {
    let curve = StableCurve { amp: 1 };
    let reserve: u128 = 10_000_000_000_000;
    assert_eq!(compute_d(4, reserve, reserve), Ok(20_000_000_000_000));
    assert_eq!(compute_d(4, reserve - 19, reserve), Ok(19_999_999_999_981));
    assert_eq!(compute_d(4, reserve - 20, reserve), Ok(19_999_999_999_980));
    // the share 19 / 2e13 is below 1e-12: the precise numbers drop it, the burn does not
    assert_eq!(precise_share(20_000_000_000_000, 19_999_999_999_981, 1), Ok(0));
    assert_eq!(
        curve.withdraw_single_token_type_exact_out(19, reserve, reserve, 1, TradeDirection::AtoB),
        Ok(1)
    );
    assert_eq!(precise_share(20_000_000_000_000, 19_999_999_999_980, 1), Ok(1));
    assert_eq!(
        curve.withdraw_single_token_type_exact_out(20, reserve, reserve, 1, TradeDirection::AtoB),
        Ok(1)
    );
    // half of one side: D falls from 2e13 to 14_702_785_180_998, the share of 7 is 1.85...
    assert_eq!(
        curve.withdraw_single_token_type_exact_out(
            5_000_000_000_000,
            reserve,
            reserve,
            7,
            TradeDirection::AtoB
        ),
        Ok(2)
    );
}

#[test]
fn precise_share_values() {
    // ceiling(2 * 3 / 7) = 1
    assert_eq!(precise_share(7, 5, 3), Ok(1));
    assert_eq!(precise_share(10, 9, 1000), Ok(100));
    assert_eq!(precise_share(3, 2, 10), Ok(4));
    assert_eq!(precise_share(2_999_068, 2_898_789, 3_000_000), Ok(100_311));
    assert_eq!(precise_share(9, 10, 5), Err(CurveError::Overflow));
    assert_eq!(precise_share(0, 0, 5), Err(CurveError::DivisionByZero));
    // the product leaves 256 bits with its decimal places: the quotient is rounded down
    let d0: u128 = 1_000_000_000_000_000_000_000_000_000_000;
    let d1: u128 = d0 - 1_000_000_000_000_000_000_000_000_000;
    assert_eq!(precise_share(d0, d1, d0 + 7), Ok(1_000_000_000_000_000_000_000_000_000));
    assert_eq!(precise_share(u128::MAX, 0, u128::MAX), Err(CurveError::Overflow));
}

#[test]
fn settled_share_is_the_share_rounded_up() {
    // a right estimate stands
    assert_eq!(settle_share(Ok(1), 7, 5, 3), Ok(1));
    // a wrong one is put right, from below and from above
    assert_eq!(settle_share(Ok(0), 7, 5, 3), Ok(1));
    assert_eq!(settle_share(Ok(2), 7, 5, 3), Ok(1));
    assert_eq!(settle_share(Ok(u128::MAX), 7, 5, 3), Ok(1));
    assert_eq!(settle_share(Err(CurveError::Overflow), 7, 5, 3), Ok(1));
    // an exact quotient is not raised
    assert_eq!(settle_share(Ok(0), 10, 9, 1000), Ok(100));
    assert_eq!(settle_share(Ok(101), 10, 9, 1000), Ok(100));
    assert_eq!(settle_share(Ok(5), 10, 10, 1000), Ok(0));
    // beyond what the precise numbers hold
    let d0: u128 = 1_000_000_000_000_000_000_000_000_000_000;
    let d1: u128 = d0 - 1_000_000_000_000_000_000_000_000_000;
    assert_eq!(
        settle_share(precise_share(d0, d1, d0 + 7), d0, d1, d0 + 7),
        Ok(1_000_000_000_000_000_000_000_000_001)
    );
    assert_eq!(
        settle_share(precise_share(u128::MAX, 0, u128::MAX), u128::MAX, 0, u128::MAX),
        Ok(u128::MAX)
    );
    assert_eq!(
        settle_share(precise_share(u128::MAX, 1, u128::MAX), u128::MAX, 1, u128::MAX),
        Ok(u128::MAX - 1)
    );
    // the invariant rose, or is zero
    assert_eq!(settle_share(Ok(0), 9, 10, 5), Err(CurveError::Overflow));
    assert_eq!(settle_share(Ok(0), 0, 0, 5), Err(CurveError::DivisionByZero));
}

#[test]
fn burn_times_invariant_reaches_the_fall_times_supply() {
    let curve = StableCurve { amp: 100 };
    let supply: u128 = 3_000_000;
    let n = curve
        .withdraw_single_token_type_exact_out(100_000, 1_000_000, 2_000_000, supply, TradeDirection::AtoB)
        .unwrap();
    let d0 = compute_d(400, 1_000_000, 2_000_000).unwrap();
    let d1 = compute_d(400, 900_000, 2_000_000).unwrap();
    assert!(n * d0 >= (d0 - d1) * supply);
    assert!((n - 1) * d0 < (d0 - d1) * supply);
    assert!(n <= supply);
}

#[test]
fn new_destination_lies_less_than_one_below_the_curve() {
    // c = D^3 / (4 * x * leverage), b = x + D / leverage
    let d: i128 = 2_940_557;
    let x: i128 = 1_100_000;
    let leverage: i128 = 4;
    let c: i128 = d * d * d / (4 * x * leverage);
    let b: i128 = x + d / leverage;
    assert_eq!(c, 1_444_694_897_282);
    assert_eq!(b, 1_835_139);
    let y: i128 = compute_new_destination_amount(4, 1_100_000, 2_940_557).unwrap() as i128;
    assert!((y + 1) * (y + 1) + (b - d) * (y + 1) > c);
    assert!(y * y + (b - d) * y <= c);
}

#[test]
fn solver_tells_whether_it_settled() {
    assert_eq!(solve_new_destination_amount(4, 1_100_000, 2_940_557), Ok((1_875_653, true)));
    assert_eq!(solve_new_destination_amount(4, 10, 10), Ok((1, true)));
    // a source reserve far too small for the invariant: 32 steps do not suffice
    assert_eq!(
        solve_new_destination_amount(1, 7, 803_786_869_751_838_156),
        Ok((136_185_962_821_159_122_346_898_121, false))
    );
    assert_eq!(
        compute_new_destination_amount(1, 7, 803_786_869_751_838_156),
        Ok(136_185_962_821_159_122_346_898_121)
    );
    assert_eq!(solve_new_destination_amount(0, 10, 10), Err(CurveError::DivisionByZero));
    assert_eq!(solve_new_destination_amount(4, 10, u128::MAX), Err(CurveError::Overflow));
}

#[test]
fn settled_destination_lies_within_one_of_the_curve() {
    let d: i128 = 2_940_557;
    let x: i128 = 1_100_000;
    let c: i128 = d * d * d / (4 * x * 4);
    let b: i128 = x + d / 4;
    let (y, settled) = solve_new_destination_amount(4, 1_100_000, 2_940_557).unwrap();
    let y: i128 = y as i128;
    assert!(settled);
    assert!(y * y + (b - d) * y <= c + 1);
    assert!((y + 1) * (y + 1) + (b - d) * (y + 1) > c);
}

#[test]
fn swap_never_gives_less_for_more() {
    let curve = StableCurve { amp: 2 };
    let mut last: u128 = 0;
    let mut source: u128 = 0;
    while source <= 8_000 {
        let result = curve.swap_without_fees(source, 6_469, 792, TradeDirection::AtoB).unwrap();
        assert!(result.destination_amount_swapped >= last);
        last = result.destination_amount_swapped;
        source += 1;
    }
    // two amounts may give the same
    assert_eq!(
        curve.swap_without_fees(4_389, 6_469, 792, TradeDirection::AtoB).unwrap().destination_amount_swapped,
        649
    );
    assert_eq!(
        curve.swap_without_fees(4_390, 6_469, 792, TradeDirection::AtoB).unwrap().destination_amount_swapped,
        649
    );
}

#[test]
fn balanced_swap_gives_at_least_the_constant_product_less_one() {
    let amps: Vec<u64> = vec![1, 7, 1_000, 1_000_000];
    for amp in amps {
        let curve = StableCurve { amp };
        let reserve: u128 = 1_000_003;
        let mut source: u128 = 0;
        while source <= 3_000_000 {
            let out = curve
                .swap_without_fees(source, reserve, reserve, TradeDirection::AtoB)
                .unwrap()
                .destination_amount_swapped;
            assert!(out + 1 >= reserve * source / (reserve + source));
            assert!(out <= source);
            source += 99_991;
        }
    }
}
