use swap_curves::error::CurveError;
use swap_curves::precise_number::{PreciseNumber, HALF, ONE};
use swap_curves::wide::U256;

fn precise(value: u128) -> PreciseNumber {
    PreciseNumber { value: U256::from_u128(value) }
}

fn huge() -> PreciseNumber {
    // (2^128 - 1)^2
    let m = U256::from_u128(u128::MAX);
    PreciseNumber { value: m.checked_mul(m).unwrap() }
}

#[test]
fn precise_new() {
    assert_eq!(ONE, 1_000_000_000_000);
    assert_eq!(HALF * 2, ONE);
    assert_eq!(PreciseNumber::new(5), Ok(precise(5_000_000_000_000)));
    assert_eq!(PreciseNumber::new(0), Ok(precise(0)));
    let max = PreciseNumber::new(u128::MAX).unwrap();
    assert_eq!(
        max.value,
        U256::from_u128(u128::MAX).checked_mul(U256::from_u128(ONE)).unwrap()
    );
}

#[test]
fn precise_add() {
    assert_eq!(precise(7 * ONE).checked_add(&precise(5 * ONE)), Ok(precise(12 * ONE)));
    assert_eq!(precise(1).checked_add(&precise(0)), Ok(precise(1)));
    // (2^128 - 1)^2 twice is 2^257 - ...
    assert_eq!(huge().checked_add(&huge()), Err(CurveError::Overflow));
    assert!(huge().checked_add(&precise(u128::MAX)).is_ok());
}

#[test]
fn precise_sub() {
    assert_eq!(precise(7 * ONE).checked_sub(&precise(5 * ONE)), Ok(precise(2 * ONE)));
    assert_eq!(precise(7).checked_sub(&precise(7)), Ok(precise(0)));
    assert_eq!(precise(5).checked_sub(&precise(7)), Err(CurveError::Overflow));
}

#[test]
fn precise_mul() {
    assert_eq!(precise(3 * ONE).checked_mul(&precise(4 * ONE)), Ok(precise(12 * ONE)));
    // 1.5 * 1.5 = 2.25
    assert_eq!(
        precise(1_500_000_000_000).checked_mul(&precise(1_500_000_000_000)),
        Ok(precise(2_250_000_000_000))
    );
    // the thirteenth decimal place is rounded to the nearest: 3e-12 * 0.5 = 1.5e-12
    assert_eq!(precise(3).checked_mul(&precise(HALF)), Ok(precise(2)));
    assert_eq!(precise(1).checked_mul(&precise(HALF - 1)), Ok(precise(0)));
    // where the product of the values leaves 256 bits, the larger is cut to a whole number
    let a = PreciseNumber::new(u128::MAX).unwrap();
    let b = PreciseNumber::new(1 << 60).unwrap();
    let expected = U256::from_u128(u128::MAX).checked_mul(b.value).unwrap();
    assert_eq!(a.checked_mul(&b), Ok(PreciseNumber { value: expected }));
    assert_eq!(b.checked_mul(&a), Ok(PreciseNumber { value: expected }));
    assert_eq!(huge().checked_mul(&huge()), Err(CurveError::Overflow));
}

#[test]
fn precise_div() {
    assert_eq!(precise(12 * ONE).checked_div(&precise(4 * ONE)), Ok(precise(3 * ONE)));
    // 1 / 3 = 0.333333333333
    assert_eq!(precise(ONE).checked_div(&precise(3 * ONE)), Ok(precise(333_333_333_333)));
    // 2 / 3: half of ONE is added to the dividend, not half of the divisor
    assert_eq!(precise(2 * ONE).checked_div(&precise(3 * ONE)), Ok(precise(666_666_666_666)));
    assert_eq!(precise(ONE).checked_div(&precise(0)), Err(CurveError::DivisionByZero));
    assert_eq!(huge().checked_div(&precise(0)), Err(CurveError::DivisionByZero));
    // where value * ONE leaves 256 bits: (value + HALF) / divisor * ONE
    let expected = huge()
        .value
        .checked_add(U256::from_u128(HALF))
        .unwrap()
        .checked_div(U256::from_u128(u128::MAX))
        .unwrap()
        .checked_mul(U256::from_u128(ONE))
        .unwrap();
    assert_eq!(
        huge().checked_div(&precise(u128::MAX)),
        Ok(PreciseNumber { value: expected })
    );
    assert_eq!(huge().checked_div(&precise(1)), Err(CurveError::Overflow));
}

#[test]
fn precise_ceiling() {
    assert_eq!(precise(ONE).ceiling(), Ok(precise(ONE)));
    assert_eq!(precise(ONE + 1).ceiling(), Ok(precise(2 * ONE)));
    assert_eq!(precise(1).ceiling(), Ok(precise(ONE)));
    assert_eq!(precise(0).ceiling(), Ok(precise(0)));
    assert_eq!(precise(2 * ONE - 1).ceiling(), Ok(precise(2 * ONE)));
}

#[test]
fn precise_to_imprecise() {
    assert_eq!(precise(5 * ONE).to_imprecise(), Ok(5));
    assert_eq!(precise(1_500_000_000_000).to_imprecise(), Ok(2));
    assert_eq!(precise(1_499_999_999_999).to_imprecise(), Ok(1));
    assert_eq!(precise(0).to_imprecise(), Ok(0));
    assert_eq!(PreciseNumber::new(u128::MAX).unwrap().to_imprecise(), Ok(u128::MAX));
    // the largest value that still rounds into 128 bits, and the one after it
    let top = PreciseNumber::new(u128::MAX)
        .unwrap()
        .value
        .checked_add(U256::from_u128(HALF - 1))
        .unwrap();
    assert_eq!(PreciseNumber { value: top }.to_imprecise(), Ok(u128::MAX));
    let over = top.checked_add(U256::one()).unwrap();
    assert_eq!(PreciseNumber { value: over }.to_imprecise(), Err(CurveError::Overflow));
    assert_eq!(huge().to_imprecise(), Err(CurveError::Overflow));
}
