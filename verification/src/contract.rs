//! The RemitFlow escrow contract: its entrypoints and the rules they follow.
//!
//! Each state-changing entrypoint is specified by a step: what it returns,
//! the storage it leaves behind and the calls it makes into the host, as a
//! function of the storage, the ledger time and the contract's address.

use vstd::prelude::*;

use crate::env::{Env, HostCall};
use crate::error::Error;
use crate::events::{self, Event};
use crate::math;
use crate::math::clamp_i128;
use crate::storage::{
    self, put, PersistentKey, StorageView, INSTANCE_BUMP_AMOUNT, INSTANCE_BUMP_THRESHOLD,
    PERSISTENT_BUMP_AMOUNT, PERSISTENT_BUMP_THRESHOLD,
};
use crate::types::{
    Address, BatchOperation, BatchOperationResult, Status, Transfer,
};
use crate::{MAX_AMOUNT, MAX_EXPIRY_WINDOW, MAX_PAGE_SIZE, MAX_TOTAL_ESCROWED};

verus! {

broadcast use vstd::seq_lib::group_seq_properties;

/// What one invocation of an entrypoint does: the result it returns, the
/// storage it leaves, and the calls it makes into the host, in order.
pub struct Step<T> {
    pub result: Result<T, Error>,
    pub storage: StorageView,
    pub calls: Seq<HostCall>,
}

/// An invocation that fails with `e` after making `calls`, leaving the
/// storage as it was.
pub open spec fn failed<T>(s: StorageView, e: Error, calls: Seq<HostCall>) -> Step<T> {
    Step { result: Err(e), storage: s, calls }
}

/// The host call that extends the instance's time-to-live.
pub open spec fn extend_instance_call() -> HostCall {
    HostCall::ExtendInstanceTtl { threshold: INSTANCE_BUMP_THRESHOLD, extend_to: INSTANCE_BUMP_AMOUNT }
}

/// The host call that extends the time-to-live of a stored transfer.
pub open spec fn extend_transfer_call(id: u64) -> HostCall {
    HostCall::ExtendPersistentTtl {
        key: PersistentKey::Transfer(id),
        threshold: PERSISTENT_BUMP_THRESHOLD,
        extend_to: PERSISTENT_BUMP_AMOUNT,
    }
}

/// The host call that extends the time-to-live of an allowlist entry.
pub open spec fn extend_caller_call(caller: Address) -> HostCall {
    HostCall::ExtendPersistentTtl {
        key: PersistentKey::AllowedCaller(caller),
        threshold: PERSISTENT_BUMP_THRESHOLD,
        extend_to: PERSISTENT_BUMP_AMOUNT,
    }
}

/// `after` is `before` once `step` has been taken, with result `r`.
pub open spec fn performed<T>(before: Env, after: Env, step: Step<T>, r: Result<T, Error>) -> bool {
    &&& r == step.result
    &&& after.storage.wf()
    &&& after.storage@ == step.storage
    &&& after.kept_context(before)
    &&& after.host_calls@ == before.host_calls@ + step.calls
}

/// A transfer whose id lies in `1..=counter`, the ids issued so far.
pub open spec fn counted(t: Transfer, counter: u64) -> bool {
    1 <= t.id && t.id <= counter
}

/// The transfers that hold funds in escrow.
pub open spec fn escrowing(counter: u64) -> spec_fn(Transfer) -> bool {
    |t: Transfer| counted(t, counter) && t.status == Status::Pending
}

/// The sum of the amounts of `s`, added in order and clamped to the `i128`
/// range at every step.
pub open spec fn saturating_sum(s: Seq<Transfer>) -> i128
    decreases s.len(),
{
    if s.len() == 0 {
        0
    } else {
        clamp_i128(saturating_sum(s.drop_last()) + s.last().amount)
    }
}

/// The total amount held in escrow: the saturating sum, in ascending id
/// order, of the amounts of the pending transfers with ids in `1..=counter`.
pub open spec fn total_escrowed_of(s: StorageView) -> i128 {
    saturating_sum(s.transfers.filter(escrowing(s.counter)))
}

/// A criterion by which transfers are counted.
pub enum Criterion {
    Sender(Address),
    Recipient(Address),
    HasStatus(Status),
}

pub open spec fn meets(c: Criterion, t: Transfer) -> bool {
    match c {
        Criterion::Sender(a) => t.from == a,
        Criterion::Recipient(a) => t.recipient == a,
        Criterion::HasStatus(st) => t.status == st,
    }
}

/// The transfers with ids in `1..=counter` that meet `c`.
pub open spec fn counted_meeting(counter: u64, c: Criterion) -> spec_fn(Transfer) -> bool {
    |t: Transfer| counted(t, counter) && meets(c, t)
}

/// How many transfers with ids in `1..=counter` meet `c`.
pub open spec fn count_of(s: StorageView, c: Criterion) -> nat {
    s.transfers.filter(counted_meeting(s.counter, c)).len()
}

/// The transfers with ids in `first..=last`.
pub open spec fn id_between(first: u64, last: u64) -> spec_fn(Transfer) -> bool {
    |t: Transfer| first <= t.id && t.id <= last
}

/// The first `n` elements of `s`, or all of them when it has fewer.
pub open spec fn first_n<A>(s: Seq<A>, n: int) -> Seq<A> {
    if n < s.len() {
        s.take(n)
    } else {
        s
    }
}

/// The page that starts at `start_id`: at most `min(limit, MAX_PAGE_SIZE)`
/// stored transfers, in ascending id order, with ids from `max(start_id, 1)`
/// up to the counter.
pub open spec fn page_of(s: StorageView, start_id: u64, limit: u32) -> Seq<Transfer> {
    let first: u64 = if start_id < 1 { 1 } else { start_id };
    let size: u32 = if limit < MAX_PAGE_SIZE { limit } else { MAX_PAGE_SIZE };
    first_n(s.transfers.filter(id_between(first, s.counter)), size as int)
}

pub open spec fn initialize_step(s: StorageView, admin: Address, token: Address) -> Step<()> {
    if s.admin is Some {
        failed(s, Error::AlreadyInitialized, seq![])
    } else {
        Step {
            result: Ok(()),
            storage: StorageView { admin: Some(admin), token: Some(token), counter: 0, ..s },
            calls: seq![
                HostCall::RequireAuth(admin),
                extend_instance_call(),
                HostCall::Publish(Event::Init { admin, token }),
            ],
        }
    }
}

pub open spec fn set_paused_step(s: StorageView, paused: bool) -> Step<()> {
    match s.admin {
        None => failed(s, Error::NotInitialized, seq![]),
        Some(admin) => Step {
            result: Ok(()),
            storage: StorageView { paused, ..s },
            calls: seq![
                HostCall::RequireAuth(admin),
                extend_instance_call(),
                HostCall::Publish(
                    if paused {
                        Event::Paused { admin }
                    } else {
                        Event::Unpaused { admin }
                    },
                ),
            ],
        },
    }
}

pub open spec fn create_transfer_step(
    s: StorageView,
    now: u64,
    this: Address,
    from: Address,
    recipient: Address,
    amount: i128,
    expiry: u64,
) -> Step<u64> {
    let total = total_escrowed_of(s);
    if s.token is None {
        failed(s, Error::NotInitialized, seq![])
    } else if s.paused {
        failed(s, Error::ContractPaused, seq![])
    } else if !s.allowed.contains(from) {
        failed(s, Error::CallerNotAllowed, seq![])
    } else if amount <= 0 {
        failed(s, Error::InvalidAmount, seq![])
    } else if amount > MAX_AMOUNT {
        failed(s, Error::AmountTooLarge, seq![])
    } else if total + amount > i128::MAX {
        failed(s, Error::AmountTooLarge, seq![])
    } else if total + amount > MAX_TOTAL_ESCROWED {
        failed(s, Error::EscrowCapReached, seq![])
    } else if expiry <= now {
        failed(s, Error::InvalidExpiry, seq![])
    } else if expiry - now > MAX_EXPIRY_WINDOW {
        failed(s, Error::ExpiryTooFar, seq![])
    } else if from == recipient {
        failed(s, Error::SameParty, seq![])
    } else if s.counter == u64::MAX {
        failed(s, Error::CounterOverflow, seq![HostCall::RequireAuth(from)])
    } else {
        let id = (s.counter + 1) as u64;
        let t = Transfer { id, from, recipient, amount, expiry, status: Status::Pending };
        Step {
            result: Ok(id),
            storage: StorageView { transfers: put(s.transfers, t), counter: id, ..s },
            calls: seq![
                HostCall::RequireAuth(from),
                HostCall::TokenTransfer { token: s.token->0, from, to: this, amount },
                extend_transfer_call(id),
                extend_instance_call(),
                HostCall::Publish(Event::Created { id, from, recipient, amount, expiry }),
            ],
        }
    }
}

pub open spec fn claim_transfer_step(
    s: StorageView,
    now: u64,
    this: Address,
    id: u64,
    recipient: Address,
) -> Step<()> {
    match s.transfer(id) {
        None => failed(s, Error::TransferNotFound, seq![]),
        Some(t) => if t.recipient != recipient {
            failed(s, Error::Unauthorized, seq![])
        } else if t.status != Status::Pending {
            failed(s, Error::NotPending, seq![])
        } else if now > t.expiry {
            failed(s, Error::Expired, seq![])
        } else if s.token is None {
            failed(s, Error::NotInitialized, seq![HostCall::RequireAuth(recipient)])
        } else {
            Step {
                result: Ok(()),
                storage: StorageView {
                    transfers: put(s.transfers, Transfer { status: Status::Claimed, ..t }),
                    ..s
                },
                calls: seq![
                    HostCall::RequireAuth(recipient),
                    HostCall::TokenTransfer {
                        token: s.token->0,
                        from: this,
                        to: recipient,
                        amount: t.amount,
                    },
                    extend_transfer_call(id),
                    extend_instance_call(),
                    HostCall::Publish(Event::Claimed { id, recipient, amount: t.amount }),
                ],
            }
        },
    }
}

pub open spec fn cancel_transfer_step(
    s: StorageView,
    now: u64,
    this: Address,
    id: u64,
    from: Address,
) -> Step<()> {
    match s.transfer(id) {
        None => failed(s, Error::TransferNotFound, seq![]),
        Some(t) => if t.from != from {
            failed(s, Error::Unauthorized, seq![])
        } else if t.status != Status::Pending {
            failed(s, Error::NotPending, seq![])
        } else if now <= t.expiry {
            failed(s, Error::NotExpired, seq![])
        } else if s.token is None {
            failed(s, Error::NotInitialized, seq![HostCall::RequireAuth(from)])
        } else {
            Step {
                result: Ok(()),
                storage: StorageView {
                    transfers: put(s.transfers, Transfer { status: Status::Cancelled, ..t }),
                    ..s
                },
                calls: seq![
                    HostCall::RequireAuth(from),
                    HostCall::TokenTransfer {
                        token: s.token->0,
                        from: this,
                        to: from,
                        amount: t.amount,
                    },
                    extend_transfer_call(id),
                    extend_instance_call(),
                    HostCall::Publish(Event::Cancelled { id, from, amount: t.amount }),
                ],
            }
        },
    }
}

pub open spec fn set_caller_step(s: StorageView, caller: Address, allowed: bool) -> Step<()> {
    match s.admin {
        None => failed(s, Error::NotInitialized, seq![]),
        Some(admin) => Step {
            result: Ok(()),
            storage: StorageView {
                allowed: if allowed {
                    s.allowed.insert(caller)
                } else {
                    s.allowed.remove(caller)
                },
                ..s
            },
            calls: if allowed {
                seq![
                    HostCall::RequireAuth(admin),
                    extend_caller_call(caller),
                    extend_instance_call(),
                    HostCall::Publish(Event::CallerAdded { caller }),
                ]
            } else {
                seq![
                    HostCall::RequireAuth(admin),
                    extend_instance_call(),
                    HostCall::Publish(Event::CallerRemoved { caller }),
                ]
            },
        },
    }
}

pub open spec fn transfer_admin_step(s: StorageView, new_admin: Address) -> Step<()> {
    match s.admin {
        None => failed(s, Error::NotInitialized, seq![]),
        Some(admin) => Step {
            result: Ok(()),
            storage: StorageView { pending_admin: Some(new_admin), ..s },
            calls: seq![
                HostCall::RequireAuth(admin),
                extend_instance_call(),
                HostCall::Publish(Event::AdminTransferStarted { admin, new_admin }),
            ],
        },
    }
}

pub open spec fn accept_admin_step(s: StorageView) -> Step<()> {
    match s.pending_admin {
        None => failed(s, Error::NoPendingAdmin, seq![]),
        Some(pending) => match s.admin {
            None => failed(s, Error::NotInitialized, seq![HostCall::RequireAuth(pending)]),
            Some(old_admin) => Step {
                result: Ok(()),
                storage: StorageView { admin: Some(pending), pending_admin: None, ..s },
                calls: seq![
                    HostCall::RequireAuth(pending),
                    extend_instance_call(),
                    HostCall::Publish(
                        Event::AdminTransferCompleted { old_admin, new_admin: pending },
                    ),
                ],
            },
        },
    }
}

/// The step one batch operation takes.
pub open spec fn operation_step(
    s: StorageView,
    now: u64,
    this: Address,
    op: BatchOperation,
) -> Step<BatchOperationResult> {
    match op {
        BatchOperation::Create(p) => {
            let st = create_transfer_step(s, now, this, p.from, p.recipient, p.amount, p.expiry);
            Step {
                result: match st.result {
                    Ok(id) => Ok(BatchOperationResult::Created(id)),
                    Err(e) => Err(e),
                },
                storage: st.storage,
                calls: st.calls,
            }
        },
        BatchOperation::Claim(p) => {
            let st = claim_transfer_step(s, now, this, p.id, p.recipient);
            Step {
                result: match st.result {
                    Ok(_) => Ok(BatchOperationResult::Claimed),
                    Err(e) => Err(e),
                },
                storage: st.storage,
                calls: st.calls,
            }
        },
        BatchOperation::Cancel(p) => {
            let st = cancel_transfer_step(s, now, this, p.id, p.from);
            Step {
                result: match st.result {
                    Ok(_) => Ok(BatchOperationResult::Cancelled),
                    Err(e) => Err(e),
                },
                storage: st.storage,
                calls: st.calls,
            }
        },
    }
}

/// The operations of `ops` run in order, each on the storage that the one
/// before it left, stopping at the first that fails.
pub open spec fn run_operations(
    s: StorageView,
    now: u64,
    this: Address,
    ops: Seq<BatchOperation>,
) -> Step<Seq<BatchOperationResult>>
    decreases ops.len(),
{
    if ops.len() == 0 {
        Step { result: Ok(seq![]), storage: s, calls: seq![] }
    } else {
        let prev = run_operations(s, now, this, ops.drop_last());
        match prev.result {
            Err(e) => prev,
            Ok(results) => {
                let st = operation_step(prev.storage, now, this, ops.last());
                Step {
                    result: match st.result {
                        Ok(r) => Ok(results.push(r)),
                        Err(e) => Err(e),
                    },
                    storage: st.storage,
                    calls: prev.calls + st.calls,
                }
            },
        }
    }
}

/// Once an operation of a batch has failed, later operations change nothing.
pub proof fn lemma_run_stops_at_failure(
    s: StorageView,
    now: u64,
    this: Address,
    ops: Seq<BatchOperation>,
    n: int,
)
    requires
        0 <= n <= ops.len(),
        run_operations(s, now, this, ops.take(n)).result is Err,
    ensures
        run_operations(s, now, this, ops) == run_operations(s, now, this, ops.take(n)),
    decreases ops.len(),
{
    if n == ops.len() {
        assert(ops.take(n) =~= ops);
    } else {
        assert(ops.drop_last().take(n) =~= ops.take(n));
        lemma_run_stops_at_failure(s, now, this, ops.drop_last(), n);
    }
}

/// A batch: the operations run in order; if one fails the batch fails with
/// its error and the storage is left as it was before the batch.
pub open spec fn batch_step(
    s: StorageView,
    now: u64,
    this: Address,
    ops: Seq<BatchOperation>,
) -> Step<Seq<BatchOperationResult>> {
    let run = run_operations(s, now, this, ops);
    Step {
        result: run.result,
        storage: if run.result is Ok {
            run.storage
        } else {
            s
        },
        calls: run.calls,
    }
}

/// A batch's result with its vector of results seen as a sequence.
pub open spec fn batch_result_view(
    r: Result<Vec<BatchOperationResult>, Error>,
) -> Result<Seq<BatchOperationResult>, Error> {
    match r {
        Ok(v) => Ok(v@),
        Err(e) => Err(e),
    }
}

/// The RemitFlow remittance escrow contract.
pub struct RemitFlowContract;

impl RemitFlowContract {

    /// Initialize the contract with an administrator and token address.
    ///
    /// The stored admin is the sole authority for privileged entrypoints.
    /// Can only be called once; subsequent calls return
    /// [`Error::AlreadyInitialized`].
    pub fn initialize(env: &mut Env, admin: Address, token: Address) -> (r: Result<(), Error>)
        requires
            old(env).storage.wf(),
        ensures
            performed(*old(env), *final(env), initialize_step(old(env).storage@, admin, token), r),
    {
        if storage::has_admin(env) {
            return Err(Error::AlreadyInitialized);
        }
        let ghost before = *env;
        env.require_auth(&admin);
        storage::set_admin(env, &admin);
        storage::set_token(env, &token);
        storage::set_counter(env, 0);
        storage::extend_instance(env);
        events::init(env, &admin, &token);
        assert(env.host_calls@ =~= before.host_calls@ + initialize_step(
            before.storage@,
            admin,
            token,
        ).calls);
        Ok(())
    }

    /// Return the configured administrator address.
    pub fn get_admin(env: &Env) -> (r: Result<Address, Error>)
        ensures
            r == match env.storage@.admin {
                Some(a) => Ok(a),
                None => Err(Error::NotInitialized),
            },
    {
        match storage::get_admin(env) {
            Some(a) => Ok(a),
            None => Err(Error::NotInitialized),
        }
    }

    /// Return the configured token contract address.
    pub fn get_token(env: &Env) -> (r: Result<Address, Error>)
        ensures
            r == match env.storage@.token {
                Some(a) => Ok(a),
                None => Err(Error::NotInitialized),
            },
    {
        match storage::get_token(env) {
            Some(a) => Ok(a),
            None => Err(Error::NotInitialized),
        }
    }

    /// Return the number of transfers created so far.
    pub fn counter(env: &Env) -> (r: u64)
        ensures
            r == env.storage@.counter,
    {
        storage::get_counter(env)
    }

    /// Pause the contract, blocking creation of new transfers.
    ///
    /// Only the configured admin may pause. Claims and cancellations of
    /// existing transfers remain available while paused.
    pub fn pause(env: &mut Env) -> (r: Result<(), Error>)
        requires
            old(env).storage.wf(),
        ensures
            performed(*old(env), *final(env), set_paused_step(old(env).storage@, true), r),
    {
        let admin = match storage::get_admin(env) {
            Some(a) => a,
            None => return Err(Error::NotInitialized),
        };
        let ghost before = *env;
        env.require_auth(&admin);
        storage::set_paused(env, true);
        storage::extend_instance(env);
        events::paused(env, &admin);
        assert(env.host_calls@ =~= before.host_calls@ + set_paused_step(before.storage@, true).calls);
        Ok(())
    }

    /// Unpause the contract, re-enabling creation of new transfers.
    ///
    /// Only the configured admin may unpause.
    pub fn unpause(env: &mut Env) -> (r: Result<(), Error>)
        requires
            old(env).storage.wf(),
        ensures
            performed(*old(env), *final(env), set_paused_step(old(env).storage@, false), r),
    {
        let admin = match storage::get_admin(env) {
            Some(a) => a,
            None => return Err(Error::NotInitialized),
        };
        let ghost before = *env;
        env.require_auth(&admin);
        storage::set_paused(env, false);
        storage::extend_instance(env);
        events::unpaused(env, &admin);
        assert(env.host_calls@ =~= before.host_calls@ + set_paused_step(before.storage@, false).calls);
        Ok(())
    }

    /// Return true if the contract is currently paused.
    pub fn is_paused(env: &Env) -> (r: bool)
        ensures
            r == env.storage@.paused,
    {
        storage::get_paused(env)
    }

    /// Fetch the full transfer record for the given id.
    pub fn get_transfer(env: &Env, id: u64) -> (r: Result<Transfer, Error>)
        requires
            env.storage.wf(),
        ensures
            r == match env.storage@.transfer(id) {
                Some(t) => Ok(t),
                None => Err(Error::TransferNotFound),
            },
    {
        match storage::get_transfer(env, id) {
            Some(t) => Ok(t),
            None => Err(Error::TransferNotFound),
        }
    }

    /// Return true if a transfer with the given id has been recorded.
    pub fn transfer_exists(env: &Env, id: u64) -> (r: bool)
        requires
            env.storage.wf(),
        ensures
            r == env.storage@.transfer(id) is Some,
    {
        storage::has_transfer(env, id)
    }

    /// Return just the lifecycle status of the transfer with the given id.
    pub fn get_status(env: &Env, id: u64) -> (r: Result<Status, Error>)
        requires
            env.storage.wf(),
        ensures
            r == match env.storage@.transfer(id) {
                Some(t) => Ok(t.status),
                None => Err(Error::TransferNotFound),
            },
    {
        match storage::get_transfer(env, id) {
            Some(t) => Ok(t.status),
            None => Err(Error::TransferNotFound),
        }
    }

    /// Return true if the transfer with the given id has passed its expiry.
    ///
    /// Compares the transfer's expiry against the current ledger timestamp;
    /// the lifecycle status is not considered.
    pub fn is_expired(env: &Env, id: u64) -> (r: Result<bool, Error>)
        requires
            env.storage.wf(),
        ensures
            r == match env.storage@.transfer(id) {
                Some(t) => Ok(env.ledger_timestamp > t.expiry),
                None => Err(Error::TransferNotFound),
            },
    {
        match storage::get_transfer(env, id) {
            Some(t) => Ok(env.ledger_timestamp > t.expiry),
            None => Err(Error::TransferNotFound),
        }
    }

    /// Return a page of transfer records starting at `start_id`.
    ///
    /// Collects up to `min(limit, MAX_PAGE_SIZE)` existing transfers with ids
    /// in `start_id..=counter`, skipping any gaps. `start_id` is inclusive and
    /// values below one are treated as one. A `limit` of zero, an empty
    /// contract, or a start id beyond the counter yields an empty page.
    pub fn get_transfers_paged(env: &Env, start_id: u64, limit: u32) -> (r: Vec<Transfer>)
        requires
            env.storage.wf(),
        ensures
            r@ == page_of(env.storage@, start_id, limit),
    {
        let last = storage::get_counter(env);
        let first: u64 = if start_id < 1 { 1 } else { start_id };
        let page_size: u32 = if limit < MAX_PAGE_SIZE { limit } else { MAX_PAGE_SIZE };
        let records = &env.storage.transfers;
        let ghost all = records@;
        let ghost pred = id_between(first, last);
        let mut page: Vec<Transfer> = Vec::new();
        let mut i: usize = 0;
        while i < records.len() && page.len() < page_size as usize
            invariant
                records@ == all,
                0 <= i <= all.len(),
                page@ == all.take(i as int).filter(pred),
                page@.len() <= page_size,
                pred == id_between(first, last),
            decreases all.len() - i,
        {
            let t = records[i];
            if first <= t.id && t.id <= last {
                page.push(t);
            }
            proof {
                assert(all.take(i + 1) =~= all.take(i as int).push(t));
                all.take(i as int).lemma_filter_push(t, pred);
            }
            i = i + 1;
        }
        proof {
            assert(all =~= all.take(i as int) + all.skip(i as int));
            Seq::filter_distributes_over_add(all.take(i as int), all.skip(i as int), pred);
            let whole = all.filter(pred);
            if i < all.len() {
                assert(page@.len() == page_size);
                assert(whole.take(page_size as int) =~= page@);
            } else {
                assert(all.take(i as int) =~= all);
            }
        }
        page
    }

    /// Return the total token amount currently held in escrow.
    ///
    /// Sums the amounts of every pending transfer with an id in
    /// `1..=counter`, in ascending id order, with saturating addition so the
    /// total never wraps.
    pub fn total_escrowed(env: &Env) -> (r: i128)
        requires
            env.storage.wf(),
        ensures
            r == total_escrowed_of(env.storage@),
    {
        let last = storage::get_counter(env);
        let records = &env.storage.transfers;
        let ghost all = records@;
        let ghost pred = escrowing(last);
        let mut total: i128 = 0;
        let mut i: usize = 0;
        while i < records.len()
            invariant
                records@ == all,
                0 <= i <= all.len(),
                total == saturating_sum(all.take(i as int).filter(pred)),
                pred == escrowing(last),
            decreases all.len() - i,
        {
            let t = records[i];
            proof {
                assert(all.take(i + 1) =~= all.take(i as int).push(t));
                all.take(i as int).lemma_filter_push(t, pred);
            }
            if 1 <= t.id && t.id <= last && t.status == Status::Pending {
                total = math::saturating_add_amount(total, t.amount);
                proof {
                    let f = all.take(i as int).filter(pred);
                    assert(f.push(t).drop_last() =~= f);
                }
            }
            i = i + 1;
        }
        proof {
            assert(all.take(i as int) =~= all);
        }
        total
    }

    /// Count the transfers with ids in `1..=counter` that meet `criterion`.
    fn count_meeting(env: &Env, criterion: &Criterion) -> (r: u64)
        requires
            env.storage.wf(),
        ensures
            r == count_of(env.storage@, *criterion),
    {
        let last = storage::get_counter(env);
        let records = &env.storage.transfers;
        let ghost all = records@;
        let ghost pred = counted_meeting(last, *criterion);
        let mut count: u64 = 0;
        let mut i: usize = 0;
        while i < records.len()
            invariant
                records@ == all,
                0 <= i <= all.len(),
                count == all.take(i as int).filter(pred).len(),
                count <= i,
                pred == counted_meeting(last, *criterion),
            decreases all.len() - i,
        {
            let t = records[i];
            proof {
                assert(all.take(i + 1) =~= all.take(i as int).push(t));
                all.take(i as int).lemma_filter_push(t, pred);
            }
            let hit = match criterion {
                Criterion::Sender(a) => t.from.same_as(a),
                Criterion::Recipient(a) => t.recipient.same_as(a),
                Criterion::HasStatus(st) => t.status == *st,
            };
            if 1 <= t.id && t.id <= last && hit {
                count = math::saturating_add_with_cap(count, 1, u64::MAX);
            }
            i = i + 1;
        }
        proof {
            assert(all.take(i as int) =~= all);
        }
        count
    }

    /// Count how many created transfers were funded by `from`.
    pub fn count_for_sender(env: &Env, from: Address) -> (r: u64)
        requires
            env.storage.wf(),
        ensures
            r == count_of(env.storage@, Criterion::Sender(from)),
    {
        Self::count_meeting(env, &Criterion::Sender(from))
    }

    /// Count how many created transfers target `recipient`.
    pub fn count_for_recipient(env: &Env, recipient: Address) -> (r: u64)
        requires
            env.storage.wf(),
        ensures
            r == count_of(env.storage@, Criterion::Recipient(recipient)),
    {
        Self::count_meeting(env, &Criterion::Recipient(recipient))
    }

    /// Count how many created transfers currently hold the given status.
    pub fn count_by_status(env: &Env, status: Status) -> (r: u64)
        requires
            env.storage.wf(),
        ensures
            r == count_of(env.storage@, Criterion::HasStatus(status)),
    {
        Self::count_meeting(env, &Criterion::HasStatus(status))
    }

    /// Create a new escrowed transfer from `from` to `recipient`.
    ///
    /// Transfers `amount` of the configured token from `from` into the
    /// contract and records a pending transfer that expires at `expiry`.
    /// Returns the new transfer's id.
    pub fn create_transfer(
        env: &mut Env,
        from: Address,
        recipient: Address,
        amount: i128,
        expiry: u64,
    ) -> (r: Result<u64, Error>)
        requires
            old(env).storage.wf(),
        ensures
            performed(
                *old(env),
                *final(env),
                create_transfer_step(
                    old(env).storage@,
                    old(env).ledger_timestamp,
                    old(env).contract_address,
                    from,
                    recipient,
                    amount,
                    expiry,
                ),
                r,
            ),
    {
        let ghost before = *env;
        let token = match storage::get_token(env) {
            Some(t) => t,
            None => return Err(Error::NotInitialized),
        };
        if storage::get_paused(env) {
            return Err(Error::ContractPaused);
        }
        if !storage::is_caller_allowed(env, &from) {
            return Err(Error::CallerNotAllowed);
        }
        if amount <= 0 {
            return Err(Error::InvalidAmount);
        }
        if amount > MAX_AMOUNT {
            return Err(Error::AmountTooLarge);
        }
        let total_escrowed = Self::total_escrowed(env);
        let updated_total = match math::checked_add_amount(total_escrowed, amount) {
            Some(t) => t,
            None => return Err(Error::AmountTooLarge),
        };
        if updated_total > MAX_TOTAL_ESCROWED {
            return Err(Error::EscrowCapReached);
        }
        let now = env.ledger_timestamp;
        if expiry <= now {
            return Err(Error::InvalidExpiry);
        }
        if expiry - now > MAX_EXPIRY_WINDOW {
            return Err(Error::ExpiryTooFar);
        }
        if from.same_as(&recipient) {
            return Err(Error::SameParty);
        }
        env.require_auth(&from);
        let id = match math::checked_increment(storage::get_counter(env)) {
            Some(id) => id,
            None => {
                assert(env.host_calls@ =~= before.host_calls@ + seq![HostCall::RequireAuth(from)]);
                return Err(Error::CounterOverflow);
            },
        };
        let this = env.contract_address;
        env.token_transfer(&token, &from, &this, amount);
        let transfer = Transfer { id, from, recipient, amount, expiry, status: Status::Pending };
        storage::set_transfer(env, &transfer);
        storage::set_counter(env, id);
        storage::extend_instance(env);
        events::created(env, id, &from, &recipient, amount, expiry);
        assert(env.host_calls@ =~= before.host_calls@ + create_transfer_step(
            before.storage@,
            before.ledger_timestamp,
            before.contract_address,
            from,
            recipient,
            amount,
            expiry,
        ).calls);
        Ok(id)
    }

    /// Claim a pending transfer, releasing its funds to the recipient.
    ///
    /// Only the recorded recipient may claim, the transfer must still be
    /// pending, and the current ledger time must not exceed the expiry.
    pub fn claim_transfer(env: &mut Env, id: u64, recipient: Address) -> (r: Result<(), Error>)
        requires
            old(env).storage.wf(),
        ensures
            performed(
                *old(env),
                *final(env),
                claim_transfer_step(
                    old(env).storage@,
                    old(env).ledger_timestamp,
                    old(env).contract_address,
                    id,
                    recipient,
                ),
                r,
            ),
    {
        let ghost before = *env;
        let mut transfer = match storage::get_transfer(env, id) {
            Some(t) => t,
            None => return Err(Error::TransferNotFound),
        };
        proof {
            storage::lemma_stored_id(env.storage@.transfers, id);
        }
        if !transfer.recipient.same_as(&recipient) {
            return Err(Error::Unauthorized);
        }
        if transfer.status != Status::Pending {
            return Err(Error::NotPending);
        }
        if env.ledger_timestamp > transfer.expiry {
            return Err(Error::Expired);
        }
        env.require_auth(&recipient);
        let token = match storage::get_token(env) {
            Some(t) => t,
            None => {
                assert(env.host_calls@ =~= before.host_calls@ + seq![HostCall::RequireAuth(recipient)]);
                return Err(Error::NotInitialized);
            },
        };
        let this = env.contract_address;
        env.token_transfer(&token, &this, &recipient, transfer.amount);
        transfer.status = Status::Claimed;
        let amount = transfer.amount;
        storage::set_transfer(env, &transfer);
        storage::extend_instance(env);
        events::claimed(env, id, &recipient, amount);
        assert(env.host_calls@ =~= before.host_calls@ + claim_transfer_step(
            before.storage@,
            before.ledger_timestamp,
            before.contract_address,
            id,
            recipient,
        ).calls);
        Ok(())
    }

    /// Cancel a pending transfer after expiry, refunding the sender.
    ///
    /// Only the sender of the transfer may cancel, the transfer must still be
    /// pending, and the expiry must have passed.
    pub fn cancel_transfer(env: &mut Env, id: u64, from: Address) -> (r: Result<(), Error>)
        requires
            old(env).storage.wf(),
        ensures
            performed(
                *old(env),
                *final(env),
                cancel_transfer_step(
                    old(env).storage@,
                    old(env).ledger_timestamp,
                    old(env).contract_address,
                    id,
                    from,
                ),
                r,
            ),
    {
        let ghost before = *env;
        let mut transfer = match storage::get_transfer(env, id) {
            Some(t) => t,
            None => return Err(Error::TransferNotFound),
        };
        proof {
            storage::lemma_stored_id(env.storage@.transfers, id);
        }
        if !transfer.from.same_as(&from) {
            return Err(Error::Unauthorized);
        }
        if transfer.status != Status::Pending {
            return Err(Error::NotPending);
        }
        if env.ledger_timestamp <= transfer.expiry {
            return Err(Error::NotExpired);
        }
        env.require_auth(&from);
        let token = match storage::get_token(env) {
            Some(t) => t,
            None => {
                assert(env.host_calls@ =~= before.host_calls@ + seq![HostCall::RequireAuth(from)]);
                return Err(Error::NotInitialized);
            },
        };
        let this = env.contract_address;
        env.token_transfer(&token, &this, &from, transfer.amount);
        transfer.status = Status::Cancelled;
        let amount = transfer.amount;
        storage::set_transfer(env, &transfer);
        storage::extend_instance(env);
        events::cancelled(env, id, &from, amount);
        assert(env.host_calls@ =~= before.host_calls@ + cancel_transfer_step(
            before.storage@,
            before.ledger_timestamp,
            before.contract_address,
            id,
            from,
        ).calls);
        Ok(())
    }

    /// Add a caller to the allowlist of privileged callers.
    ///
    /// Only the administrator may add callers.
    pub fn add_caller(env: &mut Env, caller: Address) -> (r: Result<(), Error>)
        requires
            old(env).storage.wf(),
        ensures
            performed(*old(env), *final(env), set_caller_step(old(env).storage@, caller, true), r),
    {
        let ghost before = *env;
        let admin = match storage::get_admin(env) {
            Some(a) => a,
            None => return Err(Error::NotInitialized),
        };
        env.require_auth(&admin);
        storage::set_caller_allowed(env, &caller, true);
        storage::extend_instance(env);
        events::caller_added(env, &caller);
        assert(env.host_calls@ =~= before.host_calls@ + set_caller_step(
            before.storage@,
            caller,
            true,
        ).calls);
        Ok(())
    }

    /// Remove a caller from the allowlist of privileged callers.
    ///
    /// Only the administrator may remove callers.
    pub fn remove_caller(env: &mut Env, caller: Address) -> (r: Result<(), Error>)
        requires
            old(env).storage.wf(),
        ensures
            performed(*old(env), *final(env), set_caller_step(old(env).storage@, caller, false), r),
    {
        let ghost before = *env;
        let admin = match storage::get_admin(env) {
            Some(a) => a,
            None => return Err(Error::NotInitialized),
        };
        env.require_auth(&admin);
        storage::set_caller_allowed(env, &caller, false);
        storage::extend_instance(env);
        events::caller_removed(env, &caller);
        assert(env.host_calls@ =~= before.host_calls@ + set_caller_step(
            before.storage@,
            caller,
            false,
        ).calls);
        Ok(())
    }

    /// Return true if the caller is on the privileged callers allowlist.
    pub fn is_caller_allowed(env: &Env, caller: Address) -> (r: bool)
        ensures
            r == env.storage@.allowed.contains(caller),
    {
        storage::is_caller_allowed(env, &caller)
    }

    /// Initiate a two-step admin ownership transfer by nominating a successor.
    ///
    /// Only the current administrator may call this. The nominee is stored as
    /// the pending admin but the current admin retains all privileges until
    /// the nominee calls [`Self::accept_admin`]. Calling this a second time
    /// replaces any previously nominated pending admin.
    pub fn transfer_admin(env: &mut Env, new_admin: Address) -> (r: Result<(), Error>)
        requires
            old(env).storage.wf(),
        ensures
            performed(*old(env), *final(env), transfer_admin_step(old(env).storage@, new_admin), r),
    {
        let ghost before = *env;
        let admin = match storage::get_admin(env) {
            Some(a) => a,
            None => return Err(Error::NotInitialized),
        };
        env.require_auth(&admin);
        storage::set_pending_admin(env, &new_admin);
        storage::extend_instance(env);
        events::admin_transfer_started(env, &admin, &new_admin);
        assert(env.host_calls@ =~= before.host_calls@ + transfer_admin_step(
            before.storage@,
            new_admin,
        ).calls);
        Ok(())
    }

    /// Complete a two-step admin ownership transfer.
    ///
    /// Must be authorized by the address nominated through
    /// [`Self::transfer_admin`]. On success the nominee becomes the new
    /// administrator and the pending-admin slot is cleared. Returns
    /// [`Error::NoPendingAdmin`] if no transfer has been initiated.
    pub fn accept_admin(env: &mut Env) -> (r: Result<(), Error>)
        requires
            old(env).storage.wf(),
        ensures
            performed(*old(env), *final(env), accept_admin_step(old(env).storage@), r),
    {
        let ghost before = *env;
        let pending = match storage::get_pending_admin(env) {
            Some(p) => p,
            None => return Err(Error::NoPendingAdmin),
        };
        env.require_auth(&pending);
        let old_admin = match storage::get_admin(env) {
            Some(a) => a,
            None => {
                assert(env.host_calls@ =~= before.host_calls@ + seq![HostCall::RequireAuth(pending)]);
                return Err(Error::NotInitialized);
            },
        };
        storage::set_admin(env, &pending);
        storage::clear_pending_admin(env);
        storage::extend_instance(env);
        events::admin_transfer_completed(env, &old_admin, &pending);
        assert(env.host_calls@ =~= before.host_calls@ + accept_admin_step(before.storage@).calls);
        Ok(())
    }

    /// Return the nominated pending admin address, if a transfer is in
    /// progress.
    pub fn get_pending_admin(env: &Env) -> (r: Option<Address>)
        ensures
            r == env.storage@.pending_admin,
    {
        storage::get_pending_admin(env)
    }

    /// Execute several transfer operations atomically in one contract call.
    ///
    /// Operations run in order. If any operation fails, its error is returned
    /// and the storage is left as it was before the batch; the host discards
    /// every token movement and event of the invocation. An empty batch
    /// succeeds with an empty result.
    pub fn batch_operations(
        env: &mut Env,
        operations: Vec<BatchOperation>,
    ) -> (r: Result<Vec<BatchOperationResult>, Error>)
        requires
            old(env).storage.wf(),
        ensures
            performed(
                *old(env),
                *final(env),
                batch_step(
                    old(env).storage@,
                    old(env).ledger_timestamp,
                    old(env).contract_address,
                    operations@,
                ),
                batch_result_view(r),
            ),
    {
        let ghost before = *env;
        let ghost s0 = env.storage@;
        let ghost now = env.ledger_timestamp;
        let ghost this = env.contract_address;
        let saved = env.storage.snapshot();
        let mut results: Vec<BatchOperationResult> = Vec::new();
        let mut i: usize = 0;
        while i < operations.len()
            invariant
                0 <= i <= operations@.len(),
                env.storage.wf(),
                env.kept_context(before),
                now == before.ledger_timestamp,
                this == before.contract_address,
                saved@ == s0,
                saved.wf(),
                s0 == before.storage@,
                before == *old(env),
                run_operations(s0, now, this, operations@.take(i as int)).result == Ok::<
                    Seq<BatchOperationResult>,
                    Error,
                >(results@),
                run_operations(s0, now, this, operations@.take(i as int)).storage == env.storage@,
                before.host_calls@ + run_operations(s0, now, this, operations@.take(i as int)).calls
                    == env.host_calls@,
            decreases operations@.len() - i,
        {
            let ghost prefix = operations@.take(i as int);
            let ghost mid = *env;
            let op = operations[i];
            proof {
                assert(operations@.take(i + 1).drop_last() =~= prefix);
                assert(operations@.take(i + 1).last() == op);
            }
            let outcome = match op {
                BatchOperation::Create(p) => match Self::create_transfer(
                    env,
                    p.from,
                    p.recipient,
                    p.amount,
                    p.expiry,
                ) {
                    Ok(id) => Ok(BatchOperationResult::Created(id)),
                    Err(e) => Err(e),
                },
                BatchOperation::Claim(p) => match Self::claim_transfer(env, p.id, p.recipient) {
                    Ok(()) => Ok(BatchOperationResult::Claimed),
                    Err(e) => Err(e),
                },
                BatchOperation::Cancel(p) => match Self::cancel_transfer(env, p.id, p.from) {
                    Ok(()) => Ok(BatchOperationResult::Cancelled),
                    Err(e) => Err(e),
                },
            };
            proof {
                let st = operation_step(mid.storage@, now, this, op);
                assert(outcome == st.result);
                assert(env.storage@ == st.storage);
                assert(env.host_calls@ == mid.host_calls@ + st.calls);
                assert(before.host_calls@ + run_operations(s0, now, this, operations@.take(i + 1)).calls
                    =~= env.host_calls@);
            }
            match outcome {
                Ok(result) => {
                    results.push(result);
                },
                Err(e) => {
                    env.storage = saved;
                    proof {
                        let run = run_operations(s0, now, this, operations@.take(i + 1));
                        assert(run.result == Err::<Seq<BatchOperationResult>, Error>(e));
                        lemma_run_stops_at_failure(s0, now, this, operations@, i + 1);
                        assert(env.storage@ == s0);
                        assert(env.host_calls@ == before.host_calls@ + run.calls);
                    }
                    return Err(e);
                },
            }
            i = i + 1;
        }
        proof {
            assert(operations@.take(i as int) =~= operations@);
        }
        Ok(results)
    }

} // impl RemitFlowContract

} // verus!
