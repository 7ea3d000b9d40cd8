use swap_curves::error::CurveError;
use swap_curves::wide::U256;

fn big() -> U256 {
    // (2^128 - 1)^2 = 2^256 - 2^129 + 1
    let m = U256::from_u128(u128::MAX);
    m.checked_mul(m).unwrap()
}

#[test]
fn wide_conversions() {
    assert_eq!(U256::from_u64(7).to_u128(), Ok(7));
    assert_eq!(U256::from_u128(u128::MAX).to_u128(), Ok(u128::MAX));
    assert_eq!(U256::from_u128(1 << 64).to_u128(), Ok(1 << 64));
    assert_eq!(U256::zero().to_u128(), Ok(0));
    assert_eq!(U256::one().to_u128(), Ok(1));
    assert_eq!(big().to_u128(), Err(CurveError::Overflow));
    assert_eq!(U256::from_u64(u64::MAX), U256::from_u128(u64::MAX.into()));
    assert!(U256::zero().is_zero());
    assert!(!U256::one().is_zero());
    assert!(!U256::from_u128(1 << 100).is_zero());
}

#[test]
fn wide_checked_add() {
    let a = U256::from_u128(5);
    let b = U256::from_u128(7);
    assert_eq!(a.checked_add(b), Ok(U256::from_u128(12)));
    let m = U256::from_u128(u128::MAX);
    let two_128 = m.checked_add(U256::one()).unwrap();
    assert_eq!(two_128.to_u128(), Err(CurveError::Overflow));
    assert_eq!(two_128.checked_sub(U256::one()), Ok(m));
    // 2^256 - 2^129 + 1 + 2^129 - 2 = 2^256 - 1 fits, one more does not
    let rest = two_128.checked_add(two_128).unwrap().checked_sub(U256::from_u128(2)).unwrap();
    let top = big().checked_add(rest).unwrap();
    assert_eq!(top.checked_add(U256::one()), Err(CurveError::Overflow));
    assert_eq!(top.checked_add(U256::zero()), Ok(top));
}

#[test]
fn wide_checked_sub() {
    let a = U256::from_u128(5);
    let b = U256::from_u128(7);
    assert_eq!(b.checked_sub(a), Ok(U256::from_u128(2)));
    assert_eq!(a.checked_sub(a), Ok(U256::zero()));
    assert_eq!(a.checked_sub(b), Err(CurveError::Overflow));
}

#[test]
fn wide_checked_mul() {
    let a = U256::from_u128(1 << 100);
    let b = U256::from_u128(1 << 27);
    assert_eq!(a.checked_mul(b), Ok(U256::from_u128(1 << 127)));
    assert_eq!(big().checked_mul(U256::one()), Ok(big()));
    assert_eq!(big().checked_mul(U256::from_u128(2)), Err(CurveError::Overflow));
    assert_eq!(big().checked_mul(U256::zero()), Ok(U256::zero()));
}

#[test]
fn wide_checked_div() {
    let a = U256::from_u128(100);
    let b = U256::from_u128(7);
    assert_eq!(a.checked_div(b), Ok(U256::from_u128(14)));
    assert_eq!(b.checked_div(a), Ok(U256::zero()));
    assert_eq!(a.checked_div(U256::zero()), Err(CurveError::DivisionByZero));
    assert_eq!(big().checked_div(U256::from_u128(u128::MAX)), Ok(U256::from_u128(u128::MAX)));
}

#[test]
fn wide_small_factor_and_power() {
    let a = U256::from_u128(3);
    assert_eq!(a.checked_mul_small(4), Ok(U256::from_u128(12)));
    assert_eq!(a.checked_mul_small(0), Ok(U256::zero()));
    assert_eq!(a.checked_mul_small(1), Ok(a));
    assert_eq!(big().checked_mul_small(2), Err(CurveError::Overflow));
    assert_eq!(big().checked_mul_small(0), Ok(U256::zero()));
    assert_eq!(a.checked_pow(3), Ok(U256::from_u128(27)));
    assert_eq!(a.checked_pow(0), Ok(U256::one()));
    assert_eq!(a.checked_pow(1), Ok(a));
    assert_eq!(U256::zero().checked_pow(0), Ok(U256::one()));
    assert_eq!(U256::zero().checked_pow(3), Ok(U256::zero()));
    assert_eq!(U256::from_u128(u128::MAX).checked_pow(2), Ok(big()));
    assert_eq!(U256::from_u128(u128::MAX).checked_pow(3), Err(CurveError::Overflow));
    assert_eq!(U256::from_u128(1 << 64).checked_pow(4), Err(CurveError::Overflow));
    assert_eq!(
        U256::from_u128(1 << 63).checked_pow(3),
        U256::from_u128(1 << 126).checked_mul(U256::from_u128(1 << 63))
    );
}

#[test]
fn wide_order() {
    let a = U256::from_u128(5);
    let b = U256::from_u128(7);
    let two_64 = U256::from_u128(1 << 64);
    assert!(a.lt(&b));
    assert!(!b.lt(&a));
    assert!(!a.lt(&a));
    assert!(a.le(&a));
    assert!(a.le(&b));
    assert!(!b.le(&a));
    // a higher word outweighs the lower ones
    assert!(U256::from_u64(u64::MAX).lt(&two_64));
    assert!(U256::from_u128(u128::MAX).lt(&big()));
    assert!(!big().lt(&U256::from_u128(u128::MAX)));
    assert_eq!(a.min(b), a);
    assert_eq!(b.min(a), a);
    assert_eq!(big().min(two_64), two_64);
}

#[test]
fn wide_within_one() {
    let a = U256::from_u128(5);
    assert!(a.within_one(&U256::from_u128(5)));
    assert!(a.within_one(&U256::from_u128(4)));
    assert!(a.within_one(&U256::from_u128(6)));
    assert!(!a.within_one(&U256::from_u128(3)));
    assert!(!a.within_one(&U256::from_u128(7)));
    assert!(U256::zero().within_one(&U256::one()));
    assert!(!U256::zero().within_one(&U256::from_u128(2)));
}

#[test]
fn wide_checked_div_ceil() {
    let a = U256::from_u128(100);
    assert_eq!(a.checked_div_ceil(U256::from_u128(7)), Ok(U256::from_u128(15)));
    assert_eq!(a.checked_div_ceil(U256::from_u128(10)), Ok(U256::from_u128(10)));
    assert_eq!(a.checked_div_ceil(U256::from_u128(101)), Ok(U256::one()));
    assert_eq!(a.checked_div_ceil(U256::one()), Ok(a));
    assert_eq!(U256::zero().checked_div_ceil(a), Ok(U256::zero()));
    assert_eq!(a.checked_div_ceil(U256::zero()), Err(CurveError::DivisionByZero));
    // (2^128 - 1)^2 / 2^127, rounded up: 2^129 - 4 + 1 / 2^127
    let two_127 = U256::from_u128(1 << 127);
    let expected = U256::from_u128(u128::MAX)
        .checked_mul_small(2)
        .unwrap()
        .checked_sub(U256::one())
        .unwrap();
    assert_eq!(big().checked_div_ceil(two_127), Ok(expected));
    assert_eq!(big().checked_div_ceil(big()), Ok(U256::one()));
}
