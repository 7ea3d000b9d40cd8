//! Swap pricing against a liquidity pool: constant-product amounts and the
//! stable-swap invariant solver, in exact integer arithmetic.
pub mod bigint_swap;
pub mod calculator;
pub mod curve_type;
pub mod error;
pub mod precise_number;
pub mod stable_curve;
pub mod swap_calculation;
pub mod wide;
