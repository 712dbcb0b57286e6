//! Why an operation fails.

use vstd::prelude::*;

verus! {

/// Why an operation of a pool fails.
#[derive(Clone, Copy, Debug, PartialEq, Eq, Structural)]
pub enum ContractError {
    /// A result left the range of its type: a sum or quotient too large, a
    /// difference below zero, a division by zero.
    Overflow,
    /// The upper bucket lies below the lower one, the range leaves the ticks
    /// a pool may hold, or it spans more buckets than a position may.
    InvalidTickRange,
    /// The deposit provides no liquidity.
    ZeroLiquidity,
    /// A bucket of the position is missing.
    UpdateFail,
    /// The swap reached a bucket that is missing, holds no liquidity or does
    /// not hold the current price.
    CanNotSwap,
    /// The swap returns less than the least the caller accepts.
    MaxSlippage,
    /// The asset is none of the pool's two.
    AssetMismatch,
    /// Neither a position nor a range was given.
    ProvideOptionError,
    /// The swap took `MAX_SWAP_STEPS` steps without coming to an end.
    StepLimit,
    /// The bucket width is zero.
    InvalidTickSpace,
    /// The fee rate is one or more.
    InvalidFeeRate,
    /// The price lies outside the prices a pool may hold.
    InvalidPrice,
    /// The coins sent with a message are not the native amount it names.
    BalanceMismatch,
    /// At the current price the range takes none of the asset that was
    /// given.
    AssetMustBeZero,
    /// A token is not taxed as a native coin is.
    TaxOnToken,
}

} // verus!
