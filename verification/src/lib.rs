//! RemitFlow: a cross-border remittance escrow contract, modelled and verified.
//!
//! Senders lock token funds for a recipient with an expiry. The recipient can
//! claim the funds before the expiry; after it the sender can cancel and
//! reclaim them.

pub mod contract;
pub mod env;
pub mod error;
pub mod events;
pub mod math;
pub mod storage;
pub mod laws;
pub mod types;

pub use contract::RemitFlowContract;

use vstd::prelude::*;

verus! {

/// Largest token amount accepted for a single escrowed transfer.
///
/// Bounds individual transfers to guard against accidental or malicious
/// outsized values while staying well within the token's `i128` range.
pub const MAX_AMOUNT: i128 = 1_000_000_000_000_000_000;

/// Maximum allowed distance, in seconds, between now and a transfer's expiry.
///
/// Caps how far in the future an escrow can be scheduled (roughly one year)
/// so funds are not locked away indefinitely by an out-of-range expiry.
pub const MAX_EXPIRY_WINDOW: u64 = 31_536_000;

/// Global cap on the total escrowed amount.
///
/// Prevents the contract from accumulating an unbounded escrow balance.
pub const MAX_TOTAL_ESCROWED: i128 = MAX_AMOUNT;

/// Maximum number of records returned by a paginated transfer query.
pub const MAX_PAGE_SIZE: u32 = 100;

} // verus!
