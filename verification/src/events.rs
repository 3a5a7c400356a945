//! The events the contract publishes.

use vstd::prelude::*;

use crate::env::{Env, HostCall};
use crate::types::Address;

verus! {

/// An event published by the contract: its topic and its data.
#[derive(Clone, Copy, Debug, PartialEq, Eq)]
pub enum Event {
    /// `("init",)`: the contract was initialized.
    Init { admin: Address, token: Address },
    /// `("created", id)`: a transfer was created.
    Created { id: u64, from: Address, recipient: Address, amount: i128, expiry: u64 },
    /// `("claimed", id)`: the recipient claimed a transfer.
    Claimed { id: u64, recipient: Address, amount: i128 },
    /// `("cancelled", id)`: the sender cancelled a transfer and was refunded.
    Cancelled { id: u64, from: Address, amount: i128 },
    /// `("paused",)`: the admin paused the contract.
    Paused { admin: Address },
    /// `("unpaused",)`: the admin unpaused the contract.
    Unpaused { admin: Address },
    /// `("caller_added",)`: a caller was added to the allowlist.
    CallerAdded { caller: Address },
    /// `("caller_removed",)`: a caller was removed from the allowlist.
    CallerRemoved { caller: Address },
    /// `("admin_transfer_started",)`: the admin nominated a successor.
    AdminTransferStarted { admin: Address, new_admin: Address },
    /// `("admin_transfer_completed",)`: the nominee became the admin.
    AdminTransferCompleted { old_admin: Address, new_admin: Address },
}

/// Publish an event recording contract initialization.
pub fn init(env: &mut Env, admin: &Address, token: &Address)
    ensures
        final(env).storage == old(env).storage,
        final(env).kept_context(*old(env)),
        final(env).host_calls@ == old(env).host_calls@.push(HostCall::Publish(Event::Init { admin: *admin, token: *token })),
{
    env.record(HostCall::Publish(Event::Init { admin: *admin, token: *token }));
}

/// Publish an event recording the creation of a new transfer.
pub fn created(env: &mut Env, id: u64, from: &Address, recipient: &Address, amount: i128, expiry: u64)
    ensures
        final(env).storage == old(env).storage,
        final(env).kept_context(*old(env)),
        final(env).host_calls@ == old(env).host_calls@.push(HostCall::Publish(Event::Created { id, from: *from, recipient: *recipient, amount, expiry })),
{
    env.record(HostCall::Publish(Event::Created { id, from: *from, recipient: *recipient, amount, expiry }));
}

/// Publish an event recording a successful claim by the recipient.
pub fn claimed(env: &mut Env, id: u64, recipient: &Address, amount: i128)
    ensures
        final(env).storage == old(env).storage,
        final(env).kept_context(*old(env)),
        final(env).host_calls@ == old(env).host_calls@.push(HostCall::Publish(Event::Claimed { id, recipient: *recipient, amount })),
{
    env.record(HostCall::Publish(Event::Claimed { id, recipient: *recipient, amount }));
}

/// Publish an event recording a cancellation and refund to the sender.
pub fn cancelled(env: &mut Env, id: u64, from: &Address, amount: i128)
    ensures
        final(env).storage == old(env).storage,
        final(env).kept_context(*old(env)),
        final(env).host_calls@ == old(env).host_calls@.push(HostCall::Publish(Event::Cancelled { id, from: *from, amount })),
{
    env.record(HostCall::Publish(Event::Cancelled { id, from: *from, amount }));
}

/// Publish an event recording that the admin paused the contract.
pub fn paused(env: &mut Env, admin: &Address)
    ensures
        final(env).storage == old(env).storage,
        final(env).kept_context(*old(env)),
        final(env).host_calls@ == old(env).host_calls@.push(HostCall::Publish(Event::Paused { admin: *admin })),
{
    env.record(HostCall::Publish(Event::Paused { admin: *admin }));
}

/// Publish an event recording that the admin unpaused the contract.
pub fn unpaused(env: &mut Env, admin: &Address)
    ensures
        final(env).storage == old(env).storage,
        final(env).kept_context(*old(env)),
        final(env).host_calls@ == old(env).host_calls@.push(HostCall::Publish(Event::Unpaused { admin: *admin })),
{
    env.record(HostCall::Publish(Event::Unpaused { admin: *admin }));
}

/// Publish an event recording that a caller was added to the allowlist.
pub fn caller_added(env: &mut Env, caller: &Address)
    ensures
        final(env).storage == old(env).storage,
        final(env).kept_context(*old(env)),
        final(env).host_calls@ == old(env).host_calls@.push(HostCall::Publish(Event::CallerAdded { caller: *caller })),
{
    env.record(HostCall::Publish(Event::CallerAdded { caller: *caller }));
}

/// Publish an event recording that a caller was removed from the allowlist.
pub fn caller_removed(env: &mut Env, caller: &Address)
    ensures
        final(env).storage == old(env).storage,
        final(env).kept_context(*old(env)),
        final(env).host_calls@ == old(env).host_calls@.push(HostCall::Publish(Event::CallerRemoved { caller: *caller })),
{
    env.record(HostCall::Publish(Event::CallerRemoved { caller: *caller }));
}

/// Publish an event recording that the admin nominated a successor.
pub fn admin_transfer_started(env: &mut Env, admin: &Address, new_admin: &Address)
    ensures
        final(env).storage == old(env).storage,
        final(env).kept_context(*old(env)),
        final(env).host_calls@ == old(env).host_calls@.push(HostCall::Publish(Event::AdminTransferStarted { admin: *admin, new_admin: *new_admin })),
{
    env.record(HostCall::Publish(Event::AdminTransferStarted { admin: *admin, new_admin: *new_admin }));
}

/// Publish an event recording that the nominee became the admin.
pub fn admin_transfer_completed(env: &mut Env, old_admin: &Address, new_admin: &Address)
    ensures
        final(env).storage == old(env).storage,
        final(env).kept_context(*old(env)),
        final(env).host_calls@ == old(env).host_calls@.push(HostCall::Publish(Event::AdminTransferCompleted { old_admin: *old_admin, new_admin: *new_admin })),
{
    env.record(HostCall::Publish(Event::AdminTransferCompleted { old_admin: *old_admin, new_admin: *new_admin }));
}

} // verus!
