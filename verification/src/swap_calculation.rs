//! Constant-product and one-for-one swap amounts over 64-bit token quantities.
use vstd::prelude::*;
pub use crate::curve_type::CurveType;
use crate::wide::div_ceil;

verus! {

/// Why a 64-bit swap calculation gave no amount.
#[derive(Debug, Clone, Copy, PartialEq, Eq, Structural)]
pub enum PoolError {
    /// The amount obtained is below the least acceptable one.
    SlippageExceeded,
    /// The amount asked for is not below what the pool holds.
    TokenLimitExceeded,
    /// An intermediate value does not fit in 64 bits.
    CalculationError,
    /// The swap would move no tokens.
    ZeroResultingTokens,
}

impl PoolError {
    /// The number under which the pool program reports this error.
    pub open spec fn code_spec(self) -> u32 {
        match self {
            PoolError::SlippageExceeded => 300,
            PoolError::TokenLimitExceeded => 301,
            PoolError::CalculationError => 302,
            PoolError::ZeroResultingTokens => 303,
        }
    }

    /// The number under which the pool program reports this error.
    pub fn code(&self) -> (r: u32)
        ensures
            r == self.code_spec(),
    {
        match self {
            PoolError::SlippageExceeded => 300,
            PoolError::TokenLimitExceeded => 301,
            PoolError::CalculationError => 302,
            PoolError::ZeroResultingTokens => 303,
        }
    }

    /// The text shown to a user for this error.
    pub open spec fn message_spec(self) -> Seq<char> {
        match self {
            PoolError::SlippageExceeded => "Slippage exceeded"@,
            PoolError::TokenLimitExceeded => "Token limit reached"@,
            PoolError::CalculationError => "Calculation error"@,
            PoolError::ZeroResultingTokens => "Swap size is too small"@,
        }
    }

    /// The text shown to a user for this error.
    pub fn message(&self) -> (r: String)
        ensures
            r@ == self.message_spec(),
    {
        match self {
            PoolError::SlippageExceeded => "Slippage exceeded".to_owned(),
            PoolError::TokenLimitExceeded => "Token limit reached".to_owned(),
            PoolError::CalculationError => "Calculation error".to_owned(),
            PoolError::ZeroResultingTokens => "Swap size is too small".to_owned(),
        }
    }
}

/// The base amount `A` received for paying `b` of the quote token into a pool
/// holding `x` base and `y` quote tokens.
///
/// On the product curve `A = x - (x * y) / (y + b)`, with `y + b` and `x * y`
/// held to 64 bits; on the stable curve `A = b`. An amount of zero, paid or
/// received, is an error.
pub open spec fn swap_out_amount(x: u64, y: u64, b: u64, curve_type: CurveType) -> Result<
    u64,
    PoolError,
> {
    if b == 0 {
        Err(PoolError::ZeroResultingTokens)
    } else {
        match curve_type {
            CurveType::Stable => Ok(b),
            CurveType::Product => if y + b > u64::MAX || x * y > u64::MAX {
                Err(PoolError::CalculationError)
            } else if x - (x * y) / (y + b) == 0 {
                Err(PoolError::ZeroResultingTokens)
            } else {
                Ok((x - (x * y) / (y + b)) as u64)
            },
        }
    }
}

/// The quote amount `B` to pay for receiving `a` of the base token from a pool
/// holding `x` base and `y` quote tokens.
///
/// On the product curve `B = (x * y) / (x - a) - y` with the quotient rounded
/// up, so that the product of the reserves does not fall, and with `x * y`
/// held to 64 bits; on the stable curve `B = a`. Asking for nothing, or for
/// all the pool holds or more, is an error.
pub open spec fn swap_in_amount(x: u64, y: u64, a: u64, curve_type: CurveType) -> Result<
    u64,
    PoolError,
> {
    if a == 0 {
        Err(PoolError::ZeroResultingTokens)
    } else if a >= x {
        Err(PoolError::TokenLimitExceeded)
    } else {
        match curve_type {
            CurveType::Stable => Ok(a),
            CurveType::Product => if x * y > u64::MAX {
                Err(PoolError::CalculationError)
            } else if div_ceil(x * y, x - a) - y == 0 {
                Err(PoolError::ZeroResultingTokens)
            } else {
                Ok((div_ceil(x * y, x - a) - y) as u64)
            },
        }
    }
}

/// A quotient whose divisor is at least the second factor of the dividend is
/// at most the first factor.
pub proof fn lemma_quotient_at_most(x: int, y: int, d: int)
    requires
        0 <= x,
        0 <= y <= d,
        0 < d,
    ensures
        0 <= (x * y) / d <= x,
{
    assert(0 <= x * y <= d * x) by (nonlinear_arith)
        requires
            0 <= x,
            0 <= y <= d,
    ;
    vstd::arithmetic::div_mod::lemma_div_is_ordered(0, x * y, d);
    vstd::arithmetic::div_mod::lemma_div_is_ordered(x * y, d * x, d);
    vstd::arithmetic::div_mod::lemma_div_multiples_vanish(x, d);
}

/// A quotient whose divisor is at most the first factor of the dividend is at
/// least the second factor.
pub proof fn lemma_quotient_at_least(x: int, y: int, d: int)
    requires
        0 <= y,
        0 < d <= x,
    ensures
        (x * y) / d >= y,
{
    assert(d * y <= x * y) by (nonlinear_arith)
        requires
            0 <= y,
            0 < d <= x,
    ;
    vstd::arithmetic::div_mod::lemma_div_is_ordered(d * y, x * y, d);
    vstd::arithmetic::div_mod::lemma_div_multiples_vanish(y, d);
}

/// On the product curve a swap priced by the amount paid lets the product of
/// the reserves fall, by less than the new quote reserve: the amount paid out
/// is rounded up.
pub proof fn lemma_swap_out_product(x: u64, y: u64, b: u64)
    requires
        swap_out_amount(x, y, b, CurveType::Product) is Ok,
    ensures
        ({
            let a = swap_out_amount(x, y, b, CurveType::Product)->Ok_0;
            &&& 0 < a <= x
            &&& (x - a) * (y + b) <= x * y < (x - a) * (y + b) + (y + b)
        }),
{
    let n = x * y;
    let d = y + b;
    lemma_quotient_at_most(x as int, y as int, d);
    vstd::arithmetic::div_mod::lemma_fundamental_div_mod(n, d);
    vstd::arithmetic::div_mod::lemma_mod_bound(n, d);
    assert((n / d) * d == d * (n / d)) by (nonlinear_arith);
}

/// On the product curve a swap priced by the amount received lets the product
/// of the reserves rise, by less than the new base reserve: the amount to pay
/// is rounded up.
pub proof fn lemma_swap_in_product(x: u64, y: u64, a: u64)
    requires
        swap_in_amount(x, y, a, CurveType::Product) is Ok,
    ensures
        ({
            let b = swap_in_amount(x, y, a, CurveType::Product)->Ok_0;
            &&& 0 < b
            &&& x * y <= (x - a) * (y + b) < x * y + (x - a)
        }),
{
    let n = x * y;
    let d = x - a;
    let c = div_ceil(n, d);
    lemma_quotient_at_least(x as int, y as int, d);
    vstd::arithmetic::div_mod::lemma_fundamental_div_mod(n, d);
    vstd::arithmetic::div_mod::lemma_mod_bound(n, d);
    assert(d * (n / d + 1) == d * (n / d) + d) by (nonlinear_arith);
    assert(n <= d * c < n + d);
    assert(c <= n) by (nonlinear_arith)
        requires
            n <= d * c < n + d,
            1 <= d,
            0 <= n,
            n % d != 0 ==> d >= 2,
            n % d == 0 ==> c * d == n,
            0 <= c,
    ;
    let b = (c - y) as u64;
    assert(y + b == c);
    assert((x - a) * (y + b) == d * c);
}

/// Calculates the base amount received for paying `b` of the quote token.
pub fn calculate_swap_out_amount(x: u64, y: u64, b: u64, curve_type: CurveType) -> (r: Result<
    u64,
    PoolError,
>)
    ensures
        r == swap_out_amount(x, y, b, curve_type),
{
    match curve_type {
        CurveType::Product => {
            if b == 0 {
                return Err(PoolError::ZeroResultingTokens);
            }
            let y_plus_b: u64 = match y.checked_add(b) {
                Some(v) => v,
                None => { return Err(PoolError::CalculationError); },
            };
            let x_times_y: u64 = match x.checked_mul(y) {
                Some(v) => v,
                None => { return Err(PoolError::CalculationError); },
            };
            let div_result: u64 = x_times_y / y_plus_b;
            proof {
                lemma_quotient_at_most(x as int, y as int, y + b);
            }
            let a: u64 = x - div_result;
            if a == 0 {
                return Err(PoolError::ZeroResultingTokens);
            }
            Ok(a)
        },
        CurveType::Stable => {
            if b == 0 {
                return Err(PoolError::ZeroResultingTokens);
            }
            Ok(b)
        },
    }
}

/// Calculates the quote amount to pay for receiving `a` of the base token.
pub fn calculate_swap_in_amount(x: u64, y: u64, a: u64, curve_type: CurveType) -> (r: Result<
    u64,
    PoolError,
>)
    ensures
        r == swap_in_amount(x, y, a, curve_type),
{
    if a == 0 {
        return Err(PoolError::ZeroResultingTokens);
    }
    if a >= x {
        return Err(PoolError::TokenLimitExceeded);
    }
    match curve_type {
        CurveType::Product => {
            let x_minus_a: u64 = x - a;
            let x_times_y: u64 = match x.checked_mul(y) {
                Some(v) => v,
                None => { return Err(PoolError::CalculationError); },
            };
            proof {
                lemma_quotient_at_least(x as int, y as int, x - a);
                if x_minus_a >= 2 {
                    vstd::arithmetic::div_mod::lemma_div_is_ordered_by_denominator(
                        x_times_y as int,
                        2,
                        x_minus_a as int,
                    );
                }
            }
            let quotient: u64 = x_times_y / x_minus_a;
            let div_result: u64 = if x_times_y % x_minus_a == 0 {
                quotient
            } else {
                quotient + 1
            };
            let b: u64 = div_result - y;
            if b == 0 {
                return Err(PoolError::ZeroResultingTokens);
            }
            Ok(b)
        },
        CurveType::Stable => Ok(a),
    }
}

/// Checks an obtained amount against the least acceptable one.
pub fn check_slippage(actual_amount: u64, minimum_amount: u64) -> (r: Result<(), PoolError>)
    ensures
        r == if actual_amount < minimum_amount {
            Err::<(), PoolError>(PoolError::SlippageExceeded)
        } else {
            Ok::<(), PoolError>(())
        },
{
    if actual_amount < minimum_amount {
        Err(PoolError::SlippageExceeded)
    } else {
        Ok(())
    }
}

} // verus!
