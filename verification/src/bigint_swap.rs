//! Constant-product and one-for-one swap amounts over integers of any size.
use vstd::prelude::*;
use num_bigint::BigUint;
use num_traits::Zero;
pub use crate::curve_type::CurveType;

verus! {

/// Why a swap calculation gave no amount.
#[derive(Debug, Clone, Copy, PartialEq, Eq, Structural)]
pub enum SwapError {
    /// The pool program's error 300 (0x12c): the pool is in an invalid state,
    /// lacks liquidity for the swap, or the slippage tolerance was exceeded.
    ProgramError0x12c,
    /// Insufficient liquidity in the pool.
    InsufficientLiquidity,
    /// Invalid input amounts.
    InvalidAmount,
    /// Division by zero or overflow.
    MathError,
}

/// Result type for swap calculations.
pub type SwapResult<T> = Result<T, SwapError>;

/// `num_bigint::BigUint`, an unsigned integer of any size.
#[verifier::external_type_specification]
#[verifier::external_body]
pub struct ExBigUint(BigUint);

/// The base 2^32 digits of a `BigUint`, least significant first, as
/// `BigUint::to_u32_digits` gives them.
pub uninterp spec fn big_digits(n: BigUint) -> Seq<u32>;

/// The number that base 2^32 digits spell, least significant first.
pub open spec fn digits_value(digits: Seq<u32>) -> nat
    decreases digits.len(),
{
    if digits.len() == 0 {
        0
    } else {
        digits[0] as nat + 0x1_0000_0000 * digits_value(digits.drop_first())
    }
}

/// The number that a `BigUint` holds.
pub open spec fn big_value(n: BigUint) -> nat {
    digits_value(big_digits(n))
}

/// Calls `BigUint::is_zero` of `num_traits::Zero`, which tells whether the
/// number is zero.
#[verifier::external_body]
fn big_is_zero(n: &BigUint) -> (r: bool)
    ensures
        r == (digits_value(big_digits(*n)) == 0),
{
    n.is_zero()
}

/// Calls `BigUint::zero` of `num_traits::Zero`, which returns the number
/// zero.
#[verifier::external_body]
fn big_zero() -> (r: BigUint)
    ensures
        digits_value(big_digits(r)) == 0,
{
    BigUint::zero()
}

/// Calls `BigUint::from` on a `u64`, which returns the same number.
#[verifier::external_body]
fn big_from_u64(x: u64) -> (r: BigUint)
    ensures
        digits_value(big_digits(r)) == x,
{
    BigUint::from(x)
}

/// Calls `BigUint::clone`, which returns an equal number.
#[verifier::external_body]
fn big_clone(n: &BigUint) -> (r: BigUint)
    ensures
        big_digits(r) == big_digits(*n),
{
    n.clone()
}

/// Calls `<` of `BigUint`, which orders by the numbers held.
#[verifier::external_body]
fn big_lt(a: &BigUint, b: &BigUint) -> (r: bool)
    ensures
        r == (digits_value(big_digits(*a)) < digits_value(big_digits(*b))),
{
    a < b
}

/// Calls `+` of `&BigUint`, which returns the sum.
#[verifier::external_body]
fn big_add(a: &BigUint, b: &BigUint) -> (r: BigUint)
    ensures
        digits_value(big_digits(r)) == digits_value(big_digits(*a)) + digits_value(
            big_digits(*b),
        ),
{
    a + b
}

/// Calls `-` of `&BigUint`, which returns the difference and panics where the
/// second number is the larger: such a pair is kept out.
#[verifier::external_body]
fn big_sub(a: &BigUint, b: &BigUint) -> (r: BigUint)
    requires
        digits_value(big_digits(*a)) >= digits_value(big_digits(*b)),
    ensures
        digits_value(big_digits(r)) == digits_value(big_digits(*a)) - digits_value(
            big_digits(*b),
        ),
{
    a - b
}

/// Calls `*` of `&BigUint`, which returns the product.
#[verifier::external_body]
fn big_mul(a: &BigUint, b: &BigUint) -> (r: BigUint)
    ensures
        digits_value(big_digits(r)) == digits_value(big_digits(*a)) * digits_value(
            big_digits(*b),
        ),
{
    a * b
}

/// Calls `/` of `&BigUint`, which returns the quotient rounded down and panics
/// on a zero divisor: such a divisor is kept out.
#[verifier::external_body]
fn big_div(a: &BigUint, b: &BigUint) -> (r: BigUint)
    requires
        digits_value(big_digits(*b)) != 0,
    ensures
        digits_value(big_digits(r)) == digits_value(big_digits(*a)) / digits_value(
            big_digits(*b),
        ),
{
    a / b
}

/// The amount `A` received for sending `b` of the quote token into a pool
/// holding `x` base and `y` quote tokens.
///
/// A pool with an empty side has no liquidity. Sending nothing gives nothing.
/// Amounts above the largest 64-bit number are invalid. Else, on the product
/// curve `A = x - (x * y) / (y + b)`, and on the stable curve `A = b`.
pub open spec fn swap_amount_out(x: nat, y: nat, b: nat, curve_type: CurveType) -> Result<
    nat,
    SwapError,
> {
    if x == 0 || y == 0 {
        Err(SwapError::InsufficientLiquidity)
    } else if b == 0 {
        Ok(0nat)
    } else if x > u64::MAX || y > u64::MAX || b > u64::MAX {
        Err(SwapError::InvalidAmount)
    } else {
        match curve_type {
            CurveType::Stable => Ok(b),
            CurveType::Product => Ok((x - (x * y) / (y + b)) as nat),
        }
    }
}

/// The amount `B` to send for receiving `a` of the base token from a pool
/// holding `x` base and `y` quote tokens.
///
/// A pool with an empty side has no liquidity. Receiving nothing costs
/// nothing. Amounts above the largest 64-bit number are invalid. Else, on the
/// stable curve `B = a`; on the product curve the pool lacks liquidity for
/// `a >= x`, and else `B = (x * y) / (x - a) - y`.
pub open spec fn swap_amount_in(x: nat, y: nat, a: nat, curve_type: CurveType) -> Result<
    nat,
    SwapError,
> {
    if x == 0 || y == 0 {
        Err(SwapError::InsufficientLiquidity)
    } else if a == 0 {
        Ok(0nat)
    } else if x > u64::MAX || y > u64::MAX || a > u64::MAX {
        Err(SwapError::InvalidAmount)
    } else {
        match curve_type {
            CurveType::Stable => Ok(a),
            CurveType::Product => if a >= x {
                Err(SwapError::InsufficientLiquidity)
            } else {
                Ok(((x * y) / ((x - a) as nat) - y) as nat)
            },
        }
    }
}

/// What an executable result says in the model: the number it holds, or its
/// error.
pub open spec fn amount_of(r: Result<BigUint, SwapError>) -> Result<nat, SwapError> {
    match r {
        Ok(v) => Ok(big_value(v)),
        Err(e) => Err(e),
    }
}

/// Calculate the amount to receive (A) given the amount to send (B).
pub fn calculate_swap_amount_out(
    pool_base_amount: &BigUint,
    pool_quote_amount: &BigUint,
    amount_to_send: &BigUint,
    curve_type: CurveType,
) -> (r: SwapResult<BigUint>)
    ensures
        amount_of(r) == swap_amount_out(
            big_value(*pool_base_amount),
            big_value(*pool_quote_amount),
            big_value(*amount_to_send),
            curve_type,
        ),
{
    if big_is_zero(pool_base_amount) || big_is_zero(pool_quote_amount) {
        return Err(SwapError::InsufficientLiquidity);
    }
    if big_is_zero(amount_to_send) {
        return Ok(big_zero());
    }
    let max_amount = big_from_u64(u64::MAX);
    if big_lt(&max_amount, pool_base_amount) || big_lt(&max_amount, pool_quote_amount) || big_lt(
        &max_amount,
        amount_to_send,
    ) {
        return Err(SwapError::InvalidAmount);
    }
    match curve_type {
        CurveType::Stable => Ok(big_clone(amount_to_send)),
        CurveType::Product => {
            let y_plus_b = big_add(pool_quote_amount, amount_to_send);
            let xy = big_mul(pool_base_amount, pool_quote_amount);
            let xy_div_y_plus_b = big_div(&xy, &y_plus_b);
            proof {
                let x = big_value(*pool_base_amount) as int;
                let y = big_value(*pool_quote_amount) as int;
                let b = big_value(*amount_to_send) as int;
                crate::swap_calculation::lemma_quotient_at_most(x, y, y + b);
            }
            Ok(big_sub(pool_base_amount, &xy_div_y_plus_b))
        },
    }
}

/// Calculate the amount to send (B) given the amount to receive (A).
pub fn calculate_swap_amount_in(
    pool_base_amount: &BigUint,
    pool_quote_amount: &BigUint,
    amount_to_receive: &BigUint,
    curve_type: CurveType,
) -> (r: SwapResult<BigUint>)
    ensures
        amount_of(r) == swap_amount_in(
            big_value(*pool_base_amount),
            big_value(*pool_quote_amount),
            big_value(*amount_to_receive),
            curve_type,
        ),
{
    if big_is_zero(pool_base_amount) || big_is_zero(pool_quote_amount) {
        return Err(SwapError::InsufficientLiquidity);
    }
    if big_is_zero(amount_to_receive) {
        return Ok(big_zero());
    }
    let max_amount = big_from_u64(u64::MAX);
    if big_lt(&max_amount, pool_base_amount) || big_lt(&max_amount, pool_quote_amount) || big_lt(
        &max_amount,
        amount_to_receive,
    ) {
        return Err(SwapError::InvalidAmount);
    }
    match curve_type {
        CurveType::Stable => Ok(big_clone(amount_to_receive)),
        CurveType::Product => {
            if !big_lt(amount_to_receive, pool_base_amount) {
                return Err(SwapError::InsufficientLiquidity);
            }
            let x_minus_a = big_sub(pool_base_amount, amount_to_receive);
            let xy = big_mul(pool_base_amount, pool_quote_amount);
            let xy_div_x_minus_a = big_div(&xy, &x_minus_a);
            proof {
                let x = big_value(*pool_base_amount) as int;
                let y = big_value(*pool_quote_amount) as int;
                let a = big_value(*amount_to_receive) as int;
                crate::swap_calculation::lemma_quotient_at_least(x, y, x - a);
            }
            Ok(big_sub(&xy_div_x_minus_a, pool_quote_amount))
        },
    }
}

} // verus!
