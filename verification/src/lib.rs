//! Pricing and execution engine of a concentrated-liquidity market maker.
//!
//! The crate converts between price ticks and Q128.128 square-root prices,
//! derives liquidity from token amounts and back, and executes swaps bucket
//! by bucket. Every function is stated over mathematical integers and proved
//! against that statement. Nothing panics, and nothing wraps but the counters
//! of traded volume, which are meant to.
//!
//! - [`u256`]: 256-bit and 512-bit integers over the limbs of [`limbs`], and
//!   the rounding division.
//! - [`decimal`]: decimals with 18 digits, as fee rates and fee growth are.
//! - [`tick`]: ticks, their square-root prices and the buckets they fall in.
//! - [`liquidity`]: liquidity from amounts and amounts from liquidity.
//! - [`price`]: the price after a trade inside a bucket.
//! - [`swap`]: one step of a swap, forward and in reverse.
//! - [`walk`]: a swap as a walk of steps over buckets.
//! - [`pair`]: a pool, and what swaps, deposits and withdrawals do to it.
//! - [`tick_table`]: the buckets of a pool.
//! - [`lp_token`]: what a position has earned.
//! - [`asset`], [`factory`], [`new_int_key`]: assets, the keys of pairs and
//!   the storage keys of buckets.
//! - [`error`]: why an operation fails.

pub mod error;
pub mod limbs;
pub mod u256;
pub mod decimal;
pub mod tick;
pub mod asset;
pub mod liquidity;
pub mod price;
pub mod swap;
pub mod tick_table;
pub mod walk;
pub mod pair;
pub mod lp_token;
pub mod factory;
pub mod new_int_key;
