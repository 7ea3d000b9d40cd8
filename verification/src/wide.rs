//! Checked arithmetic on unsigned 256-bit integers.
use vstd::prelude::*;
use vstd::arithmetic::power::pow;
use crate::error::CurveError;

verus! {

/// Two to the power 64.
pub open spec fn two_64() -> nat {
    0x1_0000_0000_0000_0000nat
}

/// Two to the power 128.
pub open spec fn two_128() -> nat {
    0x1_0000_0000_0000_0000_0000_0000_0000_0000nat
}

/// Two to the power 192.
pub open spec fn two_192() -> nat {
    0x1_0000_0000_0000_0000_0000_0000_0000_0000_0000_0000_0000_0000nat
}

/// Two to the power 256: the first number that a `U256` cannot hold.
pub open spec fn two_256() -> nat {
    0x1_0000_0000_0000_0000_0000_0000_0000_0000_0000_0000_0000_0000_0000_0000_0000_0000nat
}

/// An unsigned 256-bit integer, held as four 64-bit words, least significant
/// first.
#[derive(Debug, Clone, Copy, PartialEq, Eq, Structural)]
pub struct U256 {
    pub(crate) w0: u64,
    pub(crate) w1: u64,
    pub(crate) w2: u64,
    pub(crate) w3: u64,
}

impl View for U256 {
    type V = nat;

    /// The number that the four words spell.
    closed spec fn view(&self) -> nat {
        (self.w0 + self.w1 * two_64() + self.w2 * two_128() + self.w3 * two_192()) as nat
    }
}


/// The quotient of `n` by `d`, rounded up.
pub open spec fn div_ceil(n: int, d: int) -> int {
    if n % d == 0 {
        n / d
    } else {
        n / d + 1
    }
}

/// The quotient rounded up is the least number whose product with the
/// divisor reaches the dividend: its product reaches the dividend, and no
/// number `m` below it does.
pub proof fn lemma_div_ceil_is_least(n: int, d: int, m: int)
    requires
        0 <= n,
        0 < d,
    ensures
        0 <= div_ceil(n, d),
        div_ceil(n, d) * d >= n,
        m < div_ceil(n, d) ==> m * d < n,
{
    let q = n / d;
    let c = div_ceil(n, d);
    vstd::arithmetic::div_mod::lemma_fundamental_div_mod(n, d);
    vstd::arithmetic::div_mod::lemma_mod_bound(n, d);
    vstd::arithmetic::div_mod::lemma_div_pos_is_pos(n, d);
    assert(c * d >= n && ((c - 1) * d < n || c == 0)) by (nonlinear_arith)
        requires
            n == d * q + n % d,
            0 <= n % d < d,
            0 <= q,
            c == if n % d == 0 {
                q
            } else {
                q + 1
            },
    ;
    if m < c {
        assert(m * d <= (c - 1) * d) by (nonlinear_arith)
            requires
                m <= c - 1,
                0 < d,
        ;
        assert(c == 0 ==> m * d < 0) by (nonlinear_arith)
            requires
                m < c,
                0 < d,
        ;
    }
}

/// The result of a calculation in checked 256-bit arithmetic: a number below
/// two to the 256, or the first failure met on the way to it.
pub enum Checked {
    Value(nat),
    Failure(CurveError),
}

/// The number `n` as a 256-bit quantity; a number too large for that is an
/// overflow.
pub open spec fn exact(n: nat) -> Checked {
    if n < two_256() {
        Checked::Value(n)
    } else {
        Checked::Failure(CurveError::Overflow)
    }
}

impl Checked {
    /// The sum, which overflows from two to the 256 on. A failure of the left
    /// operand goes before one of the right operand, and both before one of
    /// the operation itself; so it is in the other operations.
    pub open spec fn plus(self, rhs: Checked) -> Checked {
        match (self, rhs) {
            (Checked::Failure(e), _) => Checked::Failure(e),
            (_, Checked::Failure(e)) => Checked::Failure(e),
            (Checked::Value(a), Checked::Value(b)) => exact(a + b),
        }
    }

    /// The difference, which overflows below zero.
    pub open spec fn minus(self, rhs: Checked) -> Checked {
        match (self, rhs) {
            (Checked::Failure(e), _) => Checked::Failure(e),
            (_, Checked::Failure(e)) => Checked::Failure(e),
            (Checked::Value(a), Checked::Value(b)) => if a >= b {
                Checked::Value((a - b) as nat)
            } else {
                Checked::Failure(CurveError::Overflow)
            },
        }
    }

    /// The product, which overflows from two to the 256 on.
    pub open spec fn times(self, rhs: Checked) -> Checked {
        match (self, rhs) {
            (Checked::Failure(e), _) => Checked::Failure(e),
            (_, Checked::Failure(e)) => Checked::Failure(e),
            (Checked::Value(a), Checked::Value(b)) => exact(a * b),
        }
    }

    /// The quotient rounded down, which fails on a zero divisor.
    pub open spec fn over(self, rhs: Checked) -> Checked {
        match (self, rhs) {
            (Checked::Failure(e), _) => Checked::Failure(e),
            (_, Checked::Failure(e)) => Checked::Failure(e),
            (Checked::Value(a), Checked::Value(b)) => if b != 0 {
                Checked::Value(a / b)
            } else {
                Checked::Failure(CurveError::DivisionByZero)
            },
        }
    }

    /// The power with exponent `n`, which overflows from two to the 256 on.
    pub open spec fn to_the(self, n: nat) -> Checked {
        match self {
            Checked::Failure(e) => Checked::Failure(e),
            Checked::Value(a) => exact(pow(a as int, n) as nat),
        }
    }

    /// The result as a 128-bit amount; a number too large for that is an
    /// overflow.
    pub open spec fn narrowed(self) -> Result<u128, CurveError> {
        match self {
            Checked::Failure(e) => Err(e),
            Checked::Value(a) => if a <= u128::MAX {
                Ok(a as u128)
            } else {
                Err(CurveError::Overflow)
            },
        }
    }
}

/// What an executable result says in the model: its number or its failure.
pub open spec fn outcome(r: Result<U256, CurveError>) -> Checked {
    match r {
        Ok(v) => Checked::Value(v@),
        Err(e) => Checked::Failure(e),
    }
}

/// Calls `spl_math::uint::U256::checked_add`, which returns the sum, or `None`
/// if overflow occurred.
#[verifier::external_body]
fn outside_checked_add(a: U256, b: U256) -> (r: Option<U256>)
    ensures
        match r {
            Some(v) => v@ == a@ + b@,
            None => a@ + b@ >= two_256(),
        },
{
    let x = spl_math::uint::U256([a.w0, a.w1, a.w2, a.w3]);
    let y = spl_math::uint::U256([b.w0, b.w1, b.w2, b.w3]);
    match x.checked_add(y) {
        Some(v) => Some(U256 { w0: v.0[0], w1: v.0[1], w2: v.0[2], w3: v.0[3] }),
        None => None,
    }
}

/// Calls `spl_math::uint::U256::checked_sub`, which returns the difference, or
/// `None` if the subtrahend is the larger.
#[verifier::external_body]
fn outside_checked_sub(a: U256, b: U256) -> (r: Option<U256>)
    ensures
        match r {
            Some(v) => v@ == a@ - b@,
            None => a@ < b@,
        },
{
    let x = spl_math::uint::U256([a.w0, a.w1, a.w2, a.w3]);
    let y = spl_math::uint::U256([b.w0, b.w1, b.w2, b.w3]);
    match x.checked_sub(y) {
        Some(v) => Some(U256 { w0: v.0[0], w1: v.0[1], w2: v.0[2], w3: v.0[3] }),
        None => None,
    }
}

/// Calls `spl_math::uint::U256::checked_mul`, which returns the product, or
/// `None` if overflow occurred.
#[verifier::external_body]
fn outside_checked_mul(a: U256, b: U256) -> (r: Option<U256>)
    ensures
        match r {
            Some(v) => v@ == a@ * b@,
            None => a@ * b@ >= two_256(),
        },
{
    let x = spl_math::uint::U256([a.w0, a.w1, a.w2, a.w3]);
    let y = spl_math::uint::U256([b.w0, b.w1, b.w2, b.w3]);
    match x.checked_mul(y) {
        Some(v) => Some(U256 { w0: v.0[0], w1: v.0[1], w2: v.0[2], w3: v.0[3] }),
        None => None,
    }
}

/// Calls `spl_math::uint::U256::checked_div`, which returns the quotient
/// rounded down, or `None` if the divisor is zero.
#[verifier::external_body]
fn outside_checked_div(a: U256, b: U256) -> (r: Option<U256>)
    ensures
        match r {
            Some(v) => b@ != 0 && v@ == a@ / b@,
            None => b@ == 0,
        },
{
    let x = spl_math::uint::U256([a.w0, a.w1, a.w2, a.w3]);
    let y = spl_math::uint::U256([b.w0, b.w1, b.w2, b.w3]);
    match x.checked_div(y) {
        Some(v) => Some(U256 { w0: v.0[0], w1: v.0[1], w2: v.0[2], w3: v.0[3] }),
        None => None,
    }
}


impl U256 {
    /// Every value is below two to the 256.
    pub proof fn lemma_bounded(self)
        ensures
            self@ < two_256(),
    {
    }

    /// Two values that spell the same number are the same value.
    pub proof fn lemma_view_injective(self, other: U256)
        requires
            self@ == other@,
        ensures
            self == other,
    {
    }

    /// The number zero.
    pub fn zero() -> (r: U256)
        ensures
            r@ == 0,
    {
        U256 { w0: 0, w1: 0, w2: 0, w3: 0 }
    }

    /// The number one.
    pub fn one() -> (r: U256)
        ensures
            r@ == 1,
    {
        U256 { w0: 1, w1: 0, w2: 0, w3: 0 }
    }

    /// Widens a 64-bit number.
    pub fn from_u64(x: u64) -> (r: U256)
        ensures
            r@ == x,
    {
        U256 { w0: x, w1: 0, w2: 0, w3: 0 }
    }

    /// Widens a 128-bit number.
    pub fn from_u128(x: u128) -> (r: U256)
        ensures
            r@ == x,
    {
        let low: u128 = x % 0x1_0000_0000_0000_0000;
        let high: u128 = x / 0x1_0000_0000_0000_0000;
        U256 { w0: low as u64, w1: high as u64, w2: 0, w3: 0 }
    }

    /// Narrows to 128 bits, where the number fits.
    pub fn to_u128(&self) -> (r: Result<u128, CurveError>)
        ensures
            r == Checked::Value(self@).narrowed(),
    {
        if self.w2 == 0 && self.w3 == 0 {
            Ok(self.w0 as u128 + (self.w1 as u128) * 0x1_0000_0000_0000_0000)
        } else {
            Err(CurveError::Overflow)
        }
    }

    /// Whether the number is zero.
    pub fn is_zero(&self) -> (r: bool)
        ensures
            r == (self@ == 0),
    {
        self.w0 == 0 && self.w1 == 0 && self.w2 == 0 && self.w3 == 0
    }

    /// Whether this number is below the other.
    pub fn lt(&self, other: &U256) -> (r: bool)
        ensures
            r == (self@ < other@),
    {
        if self.w3 != other.w3 {
            self.w3 < other.w3
        } else if self.w2 != other.w2 {
            self.w2 < other.w2
        } else if self.w1 != other.w1 {
            self.w1 < other.w1
        } else {
            self.w0 < other.w0
        }
    }

    /// Whether this number is at most the other.
    pub fn le(&self, other: &U256) -> (r: bool)
        ensures
            r == (self@ <= other@),
    {
        !other.lt(self)
    }

    /// The smaller of two numbers.
    pub fn min(self, other: U256) -> (r: U256)
        ensures
            r@ == if self@ <= other@ { self@ } else { other@ },
    {
        if self.le(&other) {
            self
        } else {
            other
        }
    }

    /// Checked addition.
    pub fn checked_add(self, rhs: U256) -> (r: Result<U256, CurveError>)
        ensures
            outcome(r) == exact(self@ + rhs@),
    {
        match outside_checked_add(self, rhs) {
            Some(v) => Ok(v),
            None => Err(CurveError::Overflow),
        }
    }

    /// Checked subtraction.
    pub fn checked_sub(self, rhs: U256) -> (r: Result<U256, CurveError>)
        ensures
            outcome(r) == Checked::Value(self@).minus(Checked::Value(rhs@)),
    {
        match outside_checked_sub(self, rhs) {
            Some(v) => Ok(v),
            None => Err(CurveError::Overflow),
        }
    }

    /// Checked multiplication.
    pub fn checked_mul(self, rhs: U256) -> (r: Result<U256, CurveError>)
        ensures
            outcome(r) == exact(self@ * rhs@),
    {
        match outside_checked_mul(self, rhs) {
            Some(v) => Ok(v),
            None => Err(CurveError::Overflow),
        }
    }

    /// Checked division, rounding down.
    pub fn checked_div(self, rhs: U256) -> (r: Result<U256, CurveError>)
        ensures
            outcome(r) == Checked::Value(self@).over(Checked::Value(rhs@)),
    {
        match outside_checked_div(self, rhs) {
            Some(v) => Ok(v),
            None => Err(CurveError::DivisionByZero),
        }
    }

    /// Checked division, rounding up.
    pub fn checked_div_ceil(self, rhs: U256) -> (r: Result<U256, CurveError>)
        ensures
            outcome(r) == if rhs@ != 0 {
                Checked::Value(div_ceil(self@ as int, rhs@ as int) as nat)
            } else {
                Checked::Failure(CurveError::DivisionByZero)
            },
    {
        let quotient = self.checked_div(rhs)?;
        proof {
            let n = self@ as int;
            let d = rhs@ as int;
            self.lemma_bounded();
            vstd::arithmetic::div_mod::lemma_fundamental_div_mod(n, d);
            vstd::arithmetic::div_mod::lemma_mod_bound(n, d);
            vstd::arithmetic::div_mod::lemma_div_pos_is_pos(n, d);
            assert((n / d) * d == d * (n / d)) by (nonlinear_arith);
            assert(n % d != 0 ==> n / d + 1 <= n) by (nonlinear_arith)
                requires
                    n == d * (n / d) + n % d,
                    0 <= n % d < d,
                    0 <= n / d,
                    0 < d,
            ;
        }
        let below = quotient.checked_mul(rhs)?;
        if below.lt(&self) {
            quotient.checked_add(U256::one())
        } else {
            Ok(quotient)
        }
    }

    /// Checked multiplication by a small factor, as repeated addition.
    pub fn checked_mul_small(self, factor: u8) -> (r: Result<U256, CurveError>)
        ensures
            outcome(r) == exact(self@ * factor as nat),
    {
        let mut result = U256::zero();
        let mut i: u8 = 0;
        while i < factor
            invariant
                i <= factor,
                result@ == self@ * i as nat,
            decreases factor - i,
        {
            let next = result.checked_add(self);
            proof {
                let a = self@ as int;
                assert(a * i + a == a * (i + 1)) by (nonlinear_arith);
                assert(a * (i + 1) <= a * factor) by (nonlinear_arith)
                    requires
                        0 <= a,
                        i + 1 <= factor,
                ;
            }
            match next {
                Ok(v) => {
                    result = v;
                },
                Err(e) => {
                    return Err(e);
                },
            }
            i = i + 1;
        }
        proof {
            result.lemma_bounded();
        }
        Ok(result)
    }

    /// Checked power with a small exponent, as repeated multiplication.
    pub fn checked_pow(self, exponent: u8) -> (r: Result<U256, CurveError>)
        ensures
            outcome(r) == Checked::Value(self@).to_the(exponent as nat),
    {
        let mut result = U256::one();
        let mut i: u8 = 0;
        proof {
            vstd::arithmetic::power::lemma_pow0(self@ as int);
        }
        while i < exponent
            invariant
                i <= exponent,
                result@ == pow(self@ as int, i as nat),
            decreases exponent - i,
        {
            let next = result.checked_mul(self);
            proof {
                let a = self@ as int;
                vstd::arithmetic::power::lemma_pow_adds(a, i as nat, 1);
                vstd::arithmetic::power::lemma_pow1(a);
                if a > 0 {
                    vstd::arithmetic::power::lemma_pow_increases(
                        a as nat,
                        (i + 1) as nat,
                        exponent as nat,
                    );
                } else {
                    vstd::arithmetic::power::lemma0_pow((i + 1) as nat);
                }
            }
            match next {
                Ok(v) => {
                    result = v;
                },
                Err(e) => {
                    return Err(e);
                },
            }
            i = i + 1;
        }
        proof {
            result.lemma_bounded();
        }
        Ok(result)
    }

    /// Whether two numbers differ by at most one.
    pub fn within_one(&self, other: &U256) -> (r: bool)
        ensures
            r == (self@ <= other@ + 1 && other@ <= self@ + 1),
    {
        let difference = if other.lt(self) {
            self.checked_sub(*other)
        } else {
            other.checked_sub(*self)
        };
        match difference {
            Ok(d) => d.le(&U256::one()),
            Err(_) => false,
        }
    }
}

} // verus!
