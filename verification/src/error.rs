use vstd::prelude::*;

verus! {

/// Why a curve calculation gave no result.
#[derive(Debug, Clone, Copy, PartialEq, Eq, Structural)]
pub enum CurveError {
    /// A sum or product left the working width, or a difference fell below zero.
    Overflow,
    /// A divisor was zero.
    DivisionByZero,
    /// The amounts do not describe a possible trade: a withdrawal that is not
    /// below the reserve, or a swap after which the destination reserve would
    /// have grown.
    InvalidAmount,
}

} // verus!
