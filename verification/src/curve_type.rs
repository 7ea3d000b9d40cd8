use vstd::prelude::*;

verus! {

/// The pricing rule of a pool.
#[derive(Debug, Clone, Copy, PartialEq, Eq, Structural)]
pub enum CurveType {
    /// Constant product: `X * Y = (X - A) * (Y + B)`.
    Product,
    /// Stable curve: one token for one token.
    Stable,
}

impl CurveType {
    /// The number that stands for this curve in a pool's configuration.
    pub open spec fn code_spec(self) -> u8 {
        match self {
            CurveType::Product => 0,
            CurveType::Stable => 1,
        }
    }

    /// The number that stands for this curve in a pool's configuration.
    pub fn code(&self) -> (r: u8)
        ensures
            r == self.code_spec(),
    {
        match self {
            CurveType::Product => 0,
            CurveType::Stable => 1,
        }
    }
}

} // verus!
