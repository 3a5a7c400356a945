//! The contract's view of its host: its storage, the ledger time, its own
//! address, and the calls it makes into the host during an invocation.
//!
//! The host runs each call after the contract has decided on it, in order:
//! a `RequireAuth` fails the invocation unless the address authorized it, a
//! `TokenTransfer` moves tokens through the token contract and fails the
//! invocation when it cannot. When an entrypoint returns an error, the host
//! discards every effect of the invocation; the calls made before the error
//! still run, so that a failed authorization or token movement is reported
//! as such.

use vstd::prelude::*;

use crate::events::Event;
use crate::storage::{PersistentKey, Storage, StorageView};
use crate::types::Address;

verus! {

/// A call the contract makes into the host.
#[derive(Clone, Copy, Debug, PartialEq, Eq)]
pub enum HostCall {
    /// Require that `address` authorized the current invocation.
    RequireAuth(Address),
    /// Move `amount` of `token` from `from` to `to`.
    TokenTransfer { token: Address, from: Address, to: Address, amount: i128 },
    /// Extend the time-to-live of the contract instance.
    ExtendInstanceTtl { threshold: u32, extend_to: u32 },
    /// Extend the time-to-live of one persistent entry.
    ExtendPersistentTtl { key: PersistentKey, threshold: u32, extend_to: u32 },
    /// Publish an event.
    Publish(Event),
}

/// The environment of one contract invocation.
pub struct Env {
    /// The contract's storage.
    pub storage: Storage,
    /// The ledger timestamp of the invocation, in seconds.
    pub ledger_timestamp: u64,
    /// The address of this contract.
    pub contract_address: Address,
    /// The calls made into the host so far, in order.
    pub host_calls: Vec<HostCall>,
}

impl Env {
    /// An environment with empty storage and no host calls yet.
    pub fn new(contract_address: Address, ledger_timestamp: u64) -> (r: Env)
        ensures
            r.storage.wf(),
            r.storage@ == StorageView::empty(),
            r.ledger_timestamp == ledger_timestamp,
            r.contract_address == contract_address,
            r.host_calls@ == Seq::<HostCall>::empty(),
    {
        Env { storage: Storage::new(), ledger_timestamp, contract_address, host_calls: Vec::new() }
    }

    /// The ledger time and the contract's address are those of `before`.
    pub open spec fn kept_context(self, before: Env) -> bool {
        &&& self.ledger_timestamp == before.ledger_timestamp
        &&& self.contract_address == before.contract_address
    }

    /// Make a call into the host.
    pub fn record(&mut self, call: HostCall)
        ensures
            final(self).storage == old(self).storage,
            final(self).kept_context(*old(self)),
            final(self).host_calls@ == old(self).host_calls@.push(call),
    {
        self.host_calls.push(call);
    }

    /// Require that `address` authorized the current invocation.
    pub fn require_auth(&mut self, address: &Address)
        ensures
            final(self).storage == old(self).storage,
            final(self).kept_context(*old(self)),
            final(self).host_calls@ == old(self).host_calls@.push(HostCall::RequireAuth(*address)),
    {
        self.record(HostCall::RequireAuth(*address));
    }

    /// Move `amount` of `token` from `from` to `to`.
    pub fn token_transfer(&mut self, token: &Address, from: &Address, to: &Address, amount: i128)
        ensures
            final(self).storage == old(self).storage,
            final(self).kept_context(*old(self)),
            final(self).host_calls@ == old(self).host_calls@.push(
                HostCall::TokenTransfer { token: *token, from: *from, to: *to, amount },
            ),
    {
        self.record(HostCall::TokenTransfer { token: *token, from: *from, to: *to, amount });
    }
}

} // verus!
