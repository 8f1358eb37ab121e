use vstd::prelude::*;

verus! {

/// The errors an operation of the engine can report.  Every validation
/// failure is detected before any state mutation, so a caller that sees an
/// error also sees the store unchanged.
#[derive(Clone, Copy, Debug, PartialEq, Eq, Structural)]
pub enum CustomError {
    /// A pool was opened with `tick_spacing == 0`.
    InvalidSpacing,
    /// A position range is empty, unaligned to the tick spacing, or outside
    /// the representable tick interval.
    InvalidTickRange,
    /// A liquidity change of zero was requested.
    ZeroLiquidity,
    /// More liquidity was asked back than the position holds.
    InvalidLiquidityAmount,
    /// The computed amounts fall outside the caller's stated tolerance.
    SlippageExceeded,
    /// A position with remaining liquidity or uncollected fees was closed.
    PositionStillHasLiquidity,
    /// A fixed-point operation would lose precision or wrap.
    Overflow,
    /// A tick that the liquidity accounting implies must exist was missing:
    /// the store is corrupted, and the operation is not retried.
    TickNotFound,
}

} // verus!
