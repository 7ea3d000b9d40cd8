//! What every curve offers to a pool.
use vstd::prelude::*;
use crate::error::CurveError;

verus! {

/// Which token of the pair a trade pays in.
#[derive(Debug, Clone, Copy, PartialEq, Eq, Structural)]
pub enum TradeDirection {
    /// Token A is paid in, token B is paid out.
    AtoB,
    /// Token B is paid in, token A is paid out.
    BtoA,
}

/// The two sides of a swap before fees.
#[derive(Debug, Clone, Copy, PartialEq, Eq, Structural)]
pub struct SwapWithoutFeesResult {
    /// What the pool takes of the source token.
    pub source_amount_swapped: u128,
    /// What the pool gives of the destination token.
    pub destination_amount_swapped: u128,
}

/// A pricing rule for a pool of two tokens.
pub trait CurveCalculator {
    /// What `swap_without_fees` returns.
    spec fn swap_outcome(
        &self,
        source_amount: u128,
        swap_source_amount: u128,
        swap_destination_amount: u128,
        trade_direction: TradeDirection,
    ) -> Result<SwapWithoutFeesResult, CurveError>;

    /// What `withdraw_single_token_type_exact_out` returns.
    spec fn withdraw_outcome(
        &self,
        source_amount: u128,
        swap_token_a_amount: u128,
        swap_token_b_amount: u128,
        pool_supply: u128,
        trade_direction: TradeDirection,
    ) -> Result<u128, CurveError>;

    /// The amounts that change hands when `source_amount` is paid into a pool
    /// holding `swap_source_amount` and `swap_destination_amount`, fees apart.
    fn swap_without_fees(
        &self,
        source_amount: u128,
        swap_source_amount: u128,
        swap_destination_amount: u128,
        trade_direction: TradeDirection,
    ) -> (r: Result<SwapWithoutFeesResult, CurveError>)
        ensures
            r == self.swap_outcome(
                source_amount,
                swap_source_amount,
                swap_destination_amount,
                trade_direction,
            ),
    ;

    /// The pool tokens to burn for taking exactly `source_amount` of one token
    /// out of the pool: of token A for `AtoB`, of token B for `BtoA`.
    fn withdraw_single_token_type_exact_out(
        &self,
        source_amount: u128,
        swap_token_a_amount: u128,
        swap_token_b_amount: u128,
        pool_supply: u128,
        trade_direction: TradeDirection,
    ) -> (r: Result<u128, CurveError>)
        ensures
            r == self.withdraw_outcome(
                source_amount,
                swap_token_a_amount,
                swap_token_b_amount,
                pool_supply,
                trade_direction,
            ),
    ;
}

} // verus!
