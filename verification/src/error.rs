//! Errors that the RemitFlow contract returns to its callers.

use vstd::prelude::*;

verus! {

/// Errors that the RemitFlow contract can return to callers.
///
/// Each variant travels to the caller as the number that [`Error::code`]
/// gives.
#[derive(Clone, Copy, Debug, PartialEq, Eq, Structural)]
pub enum Error {
    /// The contract has already been initialized with an admin.
    AlreadyInitialized,
    /// The contract has not been initialized yet.
    NotInitialized,
    /// No transfer exists for the supplied id.
    TransferNotFound,
    /// The supplied amount was not strictly positive.
    InvalidAmount,
    /// The supplied expiry is not in the future.
    InvalidExpiry,
    /// The transfer counter would overflow its u64 range.
    CounterOverflow,
    /// The caller is not authorized to act on this transfer.
    Unauthorized,
    /// The transfer is not in the pending state.
    NotPending,
    /// The transfer has passed its expiry timestamp.
    Expired,
    /// The transfer has not yet reached its expiry timestamp.
    NotExpired,
    /// The sender and recipient must be different addresses.
    SameParty,
    /// The supplied amount exceeds the maximum allowed per transfer.
    AmountTooLarge,
    /// The contract is paused and cannot accept new transfers.
    ContractPaused,
    /// The supplied expiry is further out than the maximum allowed window.
    ExpiryTooFar,
    /// Accepting the transfer would push the total escrowed amount over the cap.
    EscrowCapReached,
    /// The caller is not on the privileged callers allowlist.
    CallerNotAllowed,
    /// No admin transfer has been initiated.
    NoPendingAdmin,
}

/// The numeric code under which each error reaches the caller.
pub open spec fn error_code(e: Error) -> u32 {
    match e {
        Error::AlreadyInitialized => 1,
        Error::NotInitialized => 2,
        Error::TransferNotFound => 3,
        Error::InvalidAmount => 4,
        Error::InvalidExpiry => 5,
        Error::CounterOverflow => 6,
        Error::Unauthorized => 7,
        Error::NotPending => 8,
        Error::Expired => 9,
        Error::NotExpired => 10,
        Error::SameParty => 11,
        Error::AmountTooLarge => 12,
        Error::ContractPaused => 13,
        Error::ExpiryTooFar => 14,
        Error::EscrowCapReached => 15,
        Error::CallerNotAllowed => 16,
        Error::NoPendingAdmin => 17,
    }
}

impl Error {
    /// The numeric code of this error, as the caller sees it.
    pub fn code(&self) -> (r: u32)
        ensures
            r == error_code(*self),
    {
        match self {
            Error::AlreadyInitialized => 1,
            Error::NotInitialized => 2,
            Error::TransferNotFound => 3,
            Error::InvalidAmount => 4,
            Error::InvalidExpiry => 5,
            Error::CounterOverflow => 6,
            Error::Unauthorized => 7,
            Error::NotPending => 8,
            Error::Expired => 9,
            Error::NotExpired => 10,
            Error::SameParty => 11,
            Error::AmountTooLarge => 12,
            Error::ContractPaused => 13,
            Error::ExpiryTooFar => 14,
            Error::EscrowCapReached => 15,
            Error::CallerNotAllowed => 16,
            Error::NoPendingAdmin => 17,
        }
    }
}

/// Distinct errors travel under distinct codes, so a caller can always tell
/// them apart.
pub proof fn lemma_error_codes_distinct(a: Error, b: Error)
    ensures
        error_code(a) == error_code(b) <==> a == b,
{
}

} // verus!
