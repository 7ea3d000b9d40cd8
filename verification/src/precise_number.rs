//! Fixed-point numbers with twelve decimal places, for shares of a pool.
use vstd::prelude::*;
use crate::error::CurveError;
use crate::wide::{exact, two_256, Checked, U256};

verus! {

/// The number one as a precise number: ten to the power twelve.
pub const ONE: u128 = 1_000_000_000_000;

/// One half as a precise number, added before a division to round to the
/// nearest.
pub const HALF: u128 = 500_000_000_000;

/// A number of twelve decimal places, held as its multiple of `ONE`.
#[derive(Debug, Clone, Copy, PartialEq, Eq, Structural)]
pub struct PreciseNumber {
    /// The number times `ONE`.
    pub value: U256,
}

/// The product of two precise numbers given by their values: `a * b / ONE`
/// rounded to the nearest; where `a * b` leaves 256 bits, the larger factor is
/// cut to a whole number first and nothing is rounded.
pub open spec fn scaled_product(a: nat, b: nat) -> Checked {
    if a * b < two_256() {
        exact(a * b + (HALF as nat)).over(exact(ONE as nat))
    } else if a >= b {
        exact(a / (ONE as nat) * b)
    } else {
        exact(b / (ONE as nat) * a)
    }
}

/// The quotient of two precise numbers given by their values: `a * ONE / b`
/// with half of `ONE` added to the dividend; where `a * ONE` leaves 256 bits,
/// `(a + HALF) / b` is taken first and multiplied by `ONE` after.
pub open spec fn scaled_quotient(a: nat, b: nat) -> Checked {
    if b == 0 {
        Checked::Failure(CurveError::DivisionByZero)
    } else if a * (ONE as nat) < two_256() {
        exact(a * (ONE as nat) + (HALF as nat)).over(exact(b))
    } else {
        exact(a + (HALF as nat)).over(exact(b)).times(exact(ONE as nat))
    }
}

/// The value of a precise number rounded up to a whole number.
pub open spec fn scaled_ceiling(a: nat) -> Checked {
    exact(a + ((ONE - 1) as nat)).over(exact(ONE as nat)).times(exact(ONE as nat))
}

/// The whole number nearest to a precise number given by its value.
pub open spec fn scaled_to_whole(a: nat) -> Checked {
    exact(a + (HALF as nat)).over(exact(ONE as nat))
}

/// The product of two whole numbers is exact, where it fits with twelve
/// more decimal places.
pub proof fn lemma_product_of_whole_numbers(m: nat, n: nat)
    requires
        m * n * ONE * ONE + HALF < two_256(),
    ensures
        scaled_product(m * ONE as nat, n * ONE as nat) == Checked::Value(m * n * ONE as nat),
{
    let one = ONE as int;
    let a = m * one;
    let b = n * one;
    let q = m * n * one;
    assert(a * b == q * one) by (nonlinear_arith)
        requires
            a == m * one,
            b == n * one,
            q == m * n * one,
    ;
    assert(m * n * ONE * ONE == q * one);
    assert(q >= 0) by (nonlinear_arith)
        requires
            q == m * n * one,
            one > 0,
    ;
    vstd::arithmetic::div_mod::lemma_fundamental_div_mod_converse(
        q * one + HALF as int,
        one,
        q,
        HALF as int,
    );
}

/// The quotient of a precise number by a whole number is the value's
/// quotient rounded down: the half that is added before dividing changes
/// nothing. This holds where the value fits with twelve more decimal places.
pub proof fn lemma_quotient_by_whole_number(value: nat, divisor: nat)
    requires
        divisor > 0,
        divisor * ONE < two_256(),
        value * ONE + HALF < two_256(),
    ensures
        scaled_quotient(value, divisor * ONE as nat) == Checked::Value(value / divisor),
{
    let one = ONE as int;
    let v = value as int;
    let d = divisor as int;
    let k = v / d;
    let r = v % d;
    vstd::arithmetic::div_mod::lemma_fundamental_div_mod(v, d);
    vstd::arithmetic::div_mod::lemma_mod_bound(v, d);
    assert(k >= 0) by {
        vstd::arithmetic::div_mod::lemma_div_pos_is_pos(v, d);
    }
    assert(v * one + HALF == k * (d * one) + (r * one + HALF) && 0 <= r * one + HALF < d * one)
        by (nonlinear_arith)
        requires
            v == d * k + r,
            0 <= r < d,
            one == 1_000_000_000_000,
            HALF == 500_000_000_000,
    ;
    assert(d * one > 0);
    vstd::arithmetic::div_mod::lemma_fundamental_div_mod_converse(
        v * one + HALF as int,
        d * one,
        k,
        r * one + HALF as int,
    );
}

/// A precise number rounded up to a whole number, and then to the nearest,
/// is its value's quotient by `ONE` rounded up.
pub proof fn lemma_ceiling_to_whole(value: nat)
    requires
        value + 2 * ONE < two_256(),
    ensures
        scaled_ceiling(value) == Checked::Value(((value + ONE - 1) / ONE as int * ONE) as nat),
        scaled_to_whole(((value + ONE - 1) / ONE as int * ONE) as nat) == Checked::Value(
            ((value + ONE - 1) / ONE as int) as nat,
        ),
{
}

/// What an executable result says in the model: the value of its number, or
/// its failure.
pub open spec fn precise_outcome(r: Result<PreciseNumber, CurveError>) -> Checked {
    match r {
        Ok(p) => Checked::Value(p.value@),
        Err(e) => Checked::Failure(e),
    }
}

/// Calls `spl_math::precise_number::PreciseNumber::new`, which multiplies the
/// whole number by `ONE` in 256 bits and returns `None` where that overflows.
#[verifier::external_body]
fn outside_new(value: u128) -> (r: Option<PreciseNumber>)
    ensures
        match r {
            Some(p) => p.value@ == value * ONE,
            None => value * ONE >= two_256(),
        },
{
    match spl_math::precise_number::PreciseNumber::new(value) {
        Some(p) => Some(
            PreciseNumber {
                value: U256 { w0: p.value.0[0], w1: p.value.0[1], w2: p.value.0[2], w3: p.value.0[3] },
            },
        ),
        None => None,
    }
}

/// Calls `spl_math::precise_number::PreciseNumber::checked_sub`, which
/// subtracts the values and returns `None` where the second is the larger.
#[verifier::external_body]
fn outside_sub(a: &PreciseNumber, b: &PreciseNumber) -> (r: Option<PreciseNumber>)
    ensures
        match r {
            Some(p) => p.value@ == a.value@ - b.value@,
            None => a.value@ < b.value@,
        },
{
    let (a, b) = (a.value, b.value);
    let x = spl_math::precise_number::PreciseNumber {
        value: spl_math::uint::U256([a.w0, a.w1, a.w2, a.w3]),
    };
    let y = spl_math::precise_number::PreciseNumber {
        value: spl_math::uint::U256([b.w0, b.w1, b.w2, b.w3]),
    };
    match x.checked_sub(&y) {
        Some(p) => Some(
            PreciseNumber {
                value: U256 { w0: p.value.0[0], w1: p.value.0[1], w2: p.value.0[2], w3: p.value.0[3] },
            },
        ),
        None => None,
    }
}

/// Calls `spl_math::precise_number::PreciseNumber::checked_mul`. It multiplies
/// the values in 256 bits, adds half of `ONE` and divides by `ONE`; where the
/// product overflows it divides the larger value by `ONE` first and multiplies
/// by the other. `None` is returned where a sum or the second product
/// overflows.
#[verifier::external_body]
fn outside_mul(a: &PreciseNumber, b: &PreciseNumber) -> (r: Option<PreciseNumber>)
    ensures
        match r {
            Some(p) => scaled_product(a.value@, b.value@) == Checked::Value(p.value@),
            None => scaled_product(a.value@, b.value@) is Failure,
        },
{
    let (a, b) = (a.value, b.value);
    let x = spl_math::precise_number::PreciseNumber {
        value: spl_math::uint::U256([a.w0, a.w1, a.w2, a.w3]),
    };
    let y = spl_math::precise_number::PreciseNumber {
        value: spl_math::uint::U256([b.w0, b.w1, b.w2, b.w3]),
    };
    match x.checked_mul(&y) {
        Some(p) => Some(
            PreciseNumber {
                value: U256 { w0: p.value.0[0], w1: p.value.0[1], w2: p.value.0[2], w3: p.value.0[3] },
            },
        ),
        None => None,
    }
}

/// Calls `spl_math::precise_number::PreciseNumber::checked_div`. It returns
/// `None` for a zero divisor; else it multiplies the dividend's value by `ONE`
/// in 256 bits, adds half of `ONE` and divides by the divisor's value; where
/// the product overflows it adds half of `ONE` to the value, divides, and
/// multiplies by `ONE` after. `None` is returned where a sum or the second
/// product overflows.
#[verifier::external_body]
fn outside_div(a: &PreciseNumber, b: &PreciseNumber) -> (r: Option<PreciseNumber>)
    ensures
        match r {
            Some(p) => scaled_quotient(a.value@, b.value@) == Checked::Value(p.value@),
            None => scaled_quotient(a.value@, b.value@) is Failure,
        },
{
    let (a, b) = (a.value, b.value);
    let x = spl_math::precise_number::PreciseNumber {
        value: spl_math::uint::U256([a.w0, a.w1, a.w2, a.w3]),
    };
    let y = spl_math::precise_number::PreciseNumber {
        value: spl_math::uint::U256([b.w0, b.w1, b.w2, b.w3]),
    };
    match x.checked_div(&y) {
        Some(p) => Some(
            PreciseNumber {
                value: U256 { w0: p.value.0[0], w1: p.value.0[1], w2: p.value.0[2], w3: p.value.0[3] },
            },
        ),
        None => None,
    }
}

/// Calls `spl_math::precise_number::PreciseNumber::ceiling`, which adds
/// `ONE - 1` to the value, divides by `ONE` and multiplies by `ONE`, and
/// returns `None` where the sum overflows.
#[verifier::external_body]
fn outside_ceiling(a: &PreciseNumber) -> (r: Option<PreciseNumber>)
    ensures
        match r {
            Some(p) => scaled_ceiling(a.value@) == Checked::Value(p.value@),
            None => scaled_ceiling(a.value@) is Failure,
        },
{
    let a = a.value;
    let x = spl_math::precise_number::PreciseNumber {
        value: spl_math::uint::U256([a.w0, a.w1, a.w2, a.w3]),
    };
    match x.ceiling() {
        Some(p) => Some(
            PreciseNumber {
                value: U256 { w0: p.value.0[0], w1: p.value.0[1], w2: p.value.0[2], w3: p.value.0[3] },
            },
        ),
        None => None,
    }
}

/// Calls `spl_math::precise_number::PreciseNumber::to_imprecise`, which adds
/// half of `ONE` to the value and divides by `ONE`. It returns `None` where
/// the sum overflows, and panics where the quotient leaves 128 bits: such a
/// value is kept out.
#[verifier::external_body]
fn outside_to_imprecise(a: &PreciseNumber) -> (r: Option<u128>)
    requires
        a.value@ + HALF >= two_256() || (a.value@ + HALF) / (ONE as int) <= u128::MAX,
    ensures
        match r {
            Some(v) => scaled_to_whole(a.value@) == Checked::Value(v as nat),
            None => scaled_to_whole(a.value@) is Failure,
        },
{
    let a = a.value;
    let x = spl_math::precise_number::PreciseNumber {
        value: spl_math::uint::U256([a.w0, a.w1, a.w2, a.w3]),
    };
    x.to_imprecise()
}

impl PreciseNumber {
    /// The precise number for a whole number.
    pub fn new(value: u128) -> (r: Result<PreciseNumber, CurveError>)
        ensures
            precise_outcome(r) == Checked::Value((value * ONE) as nat),
    {
        match outside_new(value) {
            Some(p) => Ok(p),
            None => {
                proof {
                    assert(value * ONE < two_256()) by (nonlinear_arith)
                        requires
                            value <= u128::MAX,
                            ONE == 1_000_000_000_000,
                            two_256()
                                == 0x1_0000_0000_0000_0000_0000_0000_0000_0000_0000_0000_0000_0000_0000_0000_0000_0000nat,
                    ;
                }
                Err(CurveError::Overflow)
            },
        }
    }

    /// Checked addition.
    pub fn checked_add(&self, rhs: &PreciseNumber) -> (r: Result<PreciseNumber, CurveError>)
        ensures
            precise_outcome(r) == exact(self.value@ + rhs.value@),
    {
        Ok(PreciseNumber { value: self.value.checked_add(rhs.value)? })
    }

    /// Checked subtraction.
    pub fn checked_sub(&self, rhs: &PreciseNumber) -> (r: Result<PreciseNumber, CurveError>)
        ensures
            precise_outcome(r) == Checked::Value(self.value@).minus(Checked::Value(rhs.value@)),
    {
        match outside_sub(self, rhs) {
            Some(p) => Ok(p),
            None => Err(CurveError::Overflow),
        }
    }

    /// Checked multiplication.
    pub fn checked_mul(&self, rhs: &PreciseNumber) -> (r: Result<PreciseNumber, CurveError>)
        ensures
            precise_outcome(r) == scaled_product(self.value@, rhs.value@),
    {
        match outside_mul(self, rhs) {
            Some(p) => Ok(p),
            None => Err(CurveError::Overflow),
        }
    }

    /// Checked division.
    pub fn checked_div(&self, rhs: &PreciseNumber) -> (r: Result<PreciseNumber, CurveError>)
        ensures
            precise_outcome(r) == scaled_quotient(self.value@, rhs.value@),
    {
        if rhs.value.is_zero() {
            return Err(CurveError::DivisionByZero);
        }
        match outside_div(self, rhs) {
            Some(p) => Ok(p),
            None => Err(CurveError::Overflow),
        }
    }

    /// Rounds up to a whole number.
    pub fn ceiling(&self) -> (r: Result<PreciseNumber, CurveError>)
        ensures
            precise_outcome(r) == scaled_ceiling(self.value@),
    {
        match outside_ceiling(self) {
            Some(p) => Ok(p),
            None => Err(CurveError::Overflow),
        }
    }

    /// The nearest whole number, where it fits in 128 bits.
    pub fn to_imprecise(&self) -> (r: Result<u128, CurveError>)
        ensures
            r == scaled_to_whole(self.value@).narrowed(),
    {
        let most = U256::from_u128(u128::MAX).checked_mul(U256::from_u128(ONE))?.checked_add(
            U256::from_u128(HALF - 1),
        )?;
        if most.lt(&self.value) {
            return Err(CurveError::Overflow);
        }
        match outside_to_imprecise(self) {
            Some(v) => Ok(v),
            None => Err(CurveError::Overflow),
        }
    }
}

} // verus!
