//! A fixed-width unsigned currency amount for a blockchain's native asset.
//!
//! The crate represents an amount exactly as a count of the smallest
//! indivisible unit (wei, for a currency with 18 decimal places) held in a
//! 256-bit unsigned integer, and offers checked arithmetic that surfaces an
//! `Overflow` error instead of wrapping, truncating or panicking.

mod amount;
mod uint256;

pub use amount::Error;
pub use amount::EthereumAmount;
pub use amount::lemma_total_order;
pub use uint256::Uint256;
