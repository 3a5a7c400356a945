//! The values that the contract stores, receives and returns.

use vstd::prelude::*;

verus! {

broadcast use vstd::array::group_array_axioms;

/// Which kind of party an [`Address`] names.
#[derive(Clone, Copy, Debug, PartialEq, Eq, Structural)]
pub enum AddressKind {
    /// An account controlled by an ed25519 key.
    Account,
    /// A deployed contract.
    Contract,
}

/// A Stellar address: the kind of party and its 32-byte key (the account's
/// public key, or the contract's id).
#[derive(Clone, Copy, Debug, PartialEq, Eq)]
pub struct Address {
    pub kind: AddressKind,
    pub key: [u8; 32],
}

impl Address {
    /// Whether `self` and `other` name the same party.
    pub fn same_as(&self, other: &Address) -> (r: bool)
        ensures
            r == (*self == *other),
    {
        if self.kind != other.kind {
            return false;
        }
        let mut i: usize = 0;
        while i < 32
            invariant
                0 <= i <= 32,
                forall|j: int| 0 <= j < i ==> self.key[j] == other.key[j],
            decreases 32 - i,
        {
            if self.key[i] != other.key[i] {
                return false;
            }
            i = i + 1;
        }
        assert(self.key =~= other.key);
        true
    }
}

/// Lifecycle status of a remittance transfer held in escrow.
#[derive(Clone, Copy, Debug, PartialEq, Eq, Structural)]
pub enum Status {
    /// Funds are locked in escrow awaiting the recipient's claim.
    Pending,
    /// The recipient has successfully claimed the funds.
    Claimed,
    /// The sender cancelled the transfer after its expiry and reclaimed the funds.
    Cancelled,
}

/// A single remittance transfer record stored in escrow.
#[derive(Clone, Copy, Debug, PartialEq, Eq)]
pub struct Transfer {
    /// Unique sequential identifier for this transfer.
    pub id: u64,
    /// Address that funded and owns the transfer.
    pub from: Address,
    /// Address entitled to claim the funds.
    pub recipient: Address,
    /// Amount of the token held in escrow.
    pub amount: i128,
    /// Ledger timestamp after which the transfer can be cancelled.
    pub expiry: u64,
    /// Current lifecycle status of the transfer.
    pub status: Status,
}

/// Parameters of a `Create` operation in a batch.
#[derive(Clone, Copy, Debug, PartialEq, Eq)]
pub struct CreateTransferOperation {
    pub from: Address,
    pub recipient: Address,
    pub amount: i128,
    pub expiry: u64,
}

/// Parameters of a `Claim` operation in a batch.
#[derive(Clone, Copy, Debug, PartialEq, Eq)]
pub struct ClaimTransferOperation {
    pub id: u64,
    pub recipient: Address,
}

/// Parameters of a `Cancel` operation in a batch.
#[derive(Clone, Copy, Debug, PartialEq, Eq)]
pub struct CancelTransferOperation {
    pub id: u64,
    pub from: Address,
}

/// One operation of an atomic batch.
#[derive(Clone, Copy, Debug, PartialEq, Eq)]
pub enum BatchOperation {
    Create(CreateTransferOperation),
    Claim(ClaimTransferOperation),
    Cancel(CancelTransferOperation),
}

/// The result of one successful batch operation, in input order.
#[derive(Clone, Copy, Debug, PartialEq, Eq, Structural)]
pub enum BatchOperationResult {
    /// A transfer was created with this id.
    Created(u64),
    /// A transfer was claimed.
    Claimed,
    /// A transfer was cancelled.
    Cancelled,
}

} // verus!
