//! Properties of the contract as a whole: what every invocation keeps, what
//! one invocation rules out for the next, and how escrowed funds follow the
//! tokens that move.

use vstd::prelude::*;

use crate::contract::{
    count_of, counted, first_n, id_between, page_of, Criterion, accept_admin_step, batch_step, cancel_transfer_step, claim_transfer_step, create_transfer_step,
    escrowing, initialize_step, operation_step, run_operations, saturating_sum, set_caller_step,
    set_paused_step, total_escrowed_of, transfer_admin_step, Step,
};
use crate::env::HostCall;
use crate::error::Error;
use crate::storage::{ids_ascending, lemma_put, lemma_put_at, lemma_stored_member, put, stored, StorageView};
use crate::types::{Address, BatchOperation, BatchOperationResult, Status, Transfer};
use crate::{MAX_PAGE_SIZE, MAX_TOTAL_ESCROWED};

verus! {

broadcast use vstd::seq_lib::group_seq_properties;

/// The transfers still pending.
pub open spec fn is_pending() -> spec_fn(Transfer) -> bool {
    |t: Transfer| t.status == Status::Pending
}

/// The exact sum of the amounts of `s`.
pub open spec fn amount_sum(s: Seq<Transfer>) -> int
    decreases s.len(),
{
    if s.len() == 0 {
        0
    } else {
        amount_sum(s.drop_last()) + s.last().amount
    }
}

/// The exact amount held in escrow: the sum of the pending amounts.
pub open spec fn pending_sum(s: StorageView) -> int {
    amount_sum(s.transfers.filter(is_pending()))
}

/// The storage of a contract that only its entrypoints have changed:
/// records in ascending id order, every id issued by the counter, every
/// amount positive, the pending amounts within the escrow cap, and nothing
/// stored before initialization.
pub open spec fn consistent(s: StorageView) -> bool {
    &&& ids_ascending(s.transfers)
    &&& forall|i: int|
        0 <= i < s.transfers.len() ==> 1 <= (#[trigger] s.transfers[i]).id <= s.counter
            && s.transfers[i].amount > 0
    &&& pending_sum(s) <= MAX_TOTAL_ESCROWED
    &&& s.admin is None ==> s.token is None && s.transfers.len() == 0 && s.counter == 0
}

proof fn lemma_amount_sum_nonneg(s: Seq<Transfer>)
    requires
        forall|i: int| 0 <= i < s.len() ==> #[trigger] s[i].amount >= 0,
    ensures
        amount_sum(s) >= 0,
    decreases s.len(),
{
    if s.len() > 0 {
        lemma_amount_sum_nonneg(s.drop_last());
    }
}

/// With no negative amounts and a sum that fits, the saturating sum is the
/// exact one.
proof fn lemma_saturating_sum_exact(s: Seq<Transfer>)
    requires
        forall|i: int| 0 <= i < s.len() ==> #[trigger] s[i].amount >= 0,
        amount_sum(s) <= i128::MAX,
    ensures
        saturating_sum(s) == amount_sum(s),
    decreases s.len(),
{
    if s.len() > 0 {
        let dl = s.drop_last();
        assert(s[s.len() - 1] == s.last());
        lemma_saturating_sum_exact(dl);
        lemma_amount_sum_nonneg(dl);
    }
}

/// Filters by predicates that agree on every element are equal.
proof fn lemma_filter_agree(s: Seq<Transfer>, p: spec_fn(Transfer) -> bool, q: spec_fn(Transfer) -> bool)
    requires
        forall|i: int| 0 <= i < s.len() ==> p(#[trigger] s[i]) == q(s[i]),
    ensures
        s.filter(p) == s.filter(q),
    decreases s.len(),
{
    reveal(Seq::filter);
    if s.len() > 0 {
        lemma_filter_agree(s.drop_last(), p, q);
        assert(p(s[s.len() - 1]) == q(s[s.len() - 1]));
    }
}

proof fn lemma_filter_positive(s: Seq<Transfer>, p: spec_fn(Transfer) -> bool)
    requires
        forall|i: int| 0 <= i < s.len() ==> #[trigger] s[i].amount > 0,
    ensures
        forall|i: int| 0 <= i < s.filter(p).len() ==> #[trigger] s.filter(p)[i].amount > 0,
{
    assert forall|i: int| 0 <= i < s.filter(p).len() implies #[trigger] s.filter(p)[i].amount > 0 by {
        let x = s.filter(p)[i];
        assert(s.filter(p).contains(x));
        s.lemma_filter_contains_rev(p, x);
        let k = choose|k: int| 0 <= k < s.len() && s[k] == x;
        assert(s[k].amount > 0);
    }
}

/// In a consistent storage the total that `total_escrowed` reports is the
/// exact pending amount, which stays within the escrow cap.
pub proof fn lemma_total_escrowed_exact(s: StorageView)
    requires
        consistent(s),
    ensures
        total_escrowed_of(s) == pending_sum(s),
        0 <= total_escrowed_of(s) <= MAX_TOTAL_ESCROWED,
{
    lemma_filter_agree(s.transfers, escrowing(s.counter), is_pending());
    lemma_filter_positive(s.transfers, is_pending());
    lemma_amount_sum_nonneg(s.transfers.filter(is_pending()));
    lemma_saturating_sum_exact(s.transfers.filter(is_pending()));
}

/// A state-changing invocation of one of the contract's entrypoints.
pub enum Invocation {
    Initialize { admin: Address, token: Address },
    Pause,
    Unpause,
    CreateTransfer { from: Address, recipient: Address, amount: i128, expiry: u64 },
    ClaimTransfer { id: u64, recipient: Address },
    CancelTransfer { id: u64, from: Address },
    AddCaller { caller: Address },
    RemoveCaller { caller: Address },
    TransferAdmin { new_admin: Address },
    AcceptAdmin,
    BatchOperations { operations: Seq<BatchOperation> },
}

/// A step with its result reduced to success or the error.
pub open spec fn unit_step<T>(st: Step<T>) -> Step<()> {
    Step {
        result: match st.result {
            Ok(_) => Ok(()),
            Err(e) => Err(e),
        },
        storage: st.storage,
        calls: st.calls,
    }
}

/// The step that an invocation takes at ledger time `now` in the contract
/// at `this`.
pub open spec fn invocation_step(s: StorageView, now: u64, this: Address, inv: Invocation) -> Step<()> {
    match inv {
        Invocation::Initialize { admin, token } => initialize_step(s, admin, token),
        Invocation::Pause => set_paused_step(s, true),
        Invocation::Unpause => set_paused_step(s, false),
        Invocation::CreateTransfer { from, recipient, amount, expiry } => unit_step(
            create_transfer_step(s, now, this, from, recipient, amount, expiry),
        ),
        Invocation::ClaimTransfer { id, recipient } => claim_transfer_step(s, now, this, id, recipient),
        Invocation::CancelTransfer { id, from } => cancel_transfer_step(s, now, this, id, from),
        Invocation::AddCaller { caller } => set_caller_step(s, caller, true),
        Invocation::RemoveCaller { caller } => set_caller_step(s, caller, false),
        Invocation::TransferAdmin { new_admin } => transfer_admin_step(s, new_admin),
        Invocation::AcceptAdmin => accept_admin_step(s),
        Invocation::BatchOperations { operations } => unit_step(batch_step(s, now, this, operations)),
    }
}

/// An invocation that fails leaves the storage as it found it: a failed
/// batch in particular undoes the operations that ran before the failing one.
pub proof fn lemma_failure_changes_nothing(s: StorageView, now: u64, this: Address, inv: Invocation)
    ensures
        invocation_step(s, now, this, inv).result is Err ==> invocation_step(s, now, this, inv).storage
            == s,
{
}

proof fn lemma_amount_sum_push(s: Seq<Transfer>, x: Transfer)
    ensures
        amount_sum(s.push(x)) == amount_sum(s) + x.amount,
{
    assert(s.push(x).drop_last() =~= s);
}

/// Replacing one record changes the sum of the filtered amounts by the
/// difference it makes to the filter.
proof fn lemma_filter_update_sum(s: Seq<Transfer>, p: int, x: Transfer, pred: spec_fn(Transfer) -> bool)
    requires
        0 <= p < s.len(),
    ensures
        amount_sum(s.update(p, x).filter(pred)) == amount_sum(s.filter(pred)) - (if pred(s[p]) {
            s[p].amount as int
        } else {
            0
        }) + (if pred(x) {
            x.amount as int
        } else {
            0
        }),
    decreases s.len(),
{
    let u = s.update(p, x);
    if p == s.len() - 1 {
        assert(u =~= s.drop_last().push(x));
        assert(s =~= s.drop_last().push(s[p]));
        s.drop_last().lemma_filter_push(x, pred);
        s.drop_last().lemma_filter_push(s[p], pred);
        lemma_amount_sum_push(s.drop_last().filter(pred), x);
        lemma_amount_sum_push(s.drop_last().filter(pred), s[p]);
    } else {
        let dl = s.drop_last();
        lemma_filter_update_sum(dl, p, x, pred);
        assert(u =~= dl.update(p, x).push(s.last()));
        assert(s =~= dl.push(s.last()));
        dl.update(p, x).lemma_filter_push(s.last(), pred);
        dl.lemma_filter_push(s.last(), pred);
        lemma_amount_sum_push(dl.update(p, x).filter(pred), s.last());
        lemma_amount_sum_push(dl.filter(pred), s.last());
    }
}

/// A record whose id is above every stored id goes to the end.
proof fn lemma_put_append(s: Seq<Transfer>, t: Transfer)
    requires
        ids_ascending(s),
        forall|i: int| 0 <= i < s.len() ==> #[trigger] s[i].id < t.id,
    ensures
        put(s, t) == s.push(t),
{
    if s.len() == 0 {
        assert(seq![t] =~= s.push(t));
    } else {
        assert(s[s.len() - 1] == s.last());
    }
}

/// A record whose id is stored at `p` replaces the record there.
proof fn lemma_put_existing(s: Seq<Transfer>, t: Transfer, p: int)
    requires
        ids_ascending(s),
        0 <= p < s.len(),
        s[p].id == t.id,
    ensures
        put(s, t) == s.update(p, t),
{
    lemma_put_at(s, t, p);
}

/// In a consistent storage a stored record sits at some index.
proof fn lemma_stored_at(s: Seq<Transfer>, id: u64) -> (p: int)
    requires
        stored(s, id) is Some,
    ensures
        0 <= p < s.len(),
        s[p] == stored(s, id)->0,
        s[p].id == id,
{
    lemma_stored_member(s, id);
    choose|i: int| 0 <= i < s.len() && s[i] == stored(s, id)->0 && s[i].id == id
}

/// Settling a pending record (claiming or cancelling it) keeps the storage
/// consistent, and takes its amount out of escrow.
proof fn lemma_settle_consistent(s: StorageView, id: u64, status: Status)
    requires
        consistent(s),
        s.transfer(id) matches Some(t) && t.status == Status::Pending,
        status != Status::Pending,
    ensures
        ({
            let t = s.transfer(id)->0;
            let s2 = StorageView { transfers: put(s.transfers, Transfer { status, ..t }), ..s };
            &&& consistent(s2)
            &&& pending_sum(s2) == pending_sum(s) - t.amount
        }),
{
    let t = s.transfer(id)->0;
    let t2 = Transfer { status, ..t };
    let p = lemma_stored_at(s.transfers, id);
    lemma_put_existing(s.transfers, t2, p);
    lemma_put(s.transfers, t2);
    let s2 = StorageView { transfers: put(s.transfers, t2), ..s };
    lemma_filter_update_sum(s.transfers, p, t2, is_pending());
    assert(s.transfers[p] == t);
    assert forall|i: int| 0 <= i < s2.transfers.len() implies 1 <= (#[trigger] s2.transfers[i]).id
        <= s2.counter && s2.transfers[i].amount > 0 by {
        assert(s.transfers[i].id == s2.transfers[i].id);
    }
}

/// Creating a transfer in a consistent storage appends its record and adds
/// its amount to escrow.
proof fn lemma_create_consistent(
    s: StorageView,
    now: u64,
    this: Address,
    from: Address,
    recipient: Address,
    amount: i128,
    expiry: u64,
)
    requires
        consistent(s),
        create_transfer_step(s, now, this, from, recipient, amount, expiry).result is Ok,
    ensures
        ({
            let st = create_transfer_step(s, now, this, from, recipient, amount, expiry);
            let t = Transfer {
                id: (s.counter + 1) as u64,
                from,
                recipient,
                amount,
                expiry,
                status: Status::Pending,
            };
            &&& consistent(st.storage)
            &&& st.storage.transfers == s.transfers.push(t)
            &&& pending_sum(st.storage) == pending_sum(s) + amount
        }),
{
    let id = (s.counter + 1) as u64;
    let t = Transfer { id, from, recipient, amount, expiry, status: Status::Pending };
    lemma_total_escrowed_exact(s);
    assert forall|i: int| 0 <= i < s.transfers.len() implies #[trigger] s.transfers[i].id < t.id by {
        assert(1 <= s.transfers[i].id <= s.counter);
    }
    lemma_put_append(s.transfers, t);
    lemma_put(s.transfers, t);
    s.transfers.lemma_filter_push(t, is_pending());
    lemma_amount_sum_push(s.transfers.filter(is_pending()), t);
    let s2 = create_transfer_step(s, now, this, from, recipient, amount, expiry).storage;
    assert forall|i: int| 0 <= i < s2.transfers.len() implies 1 <= (#[trigger] s2.transfers[i]).id
        <= s2.counter && s2.transfers[i].amount > 0 by {
        if i < s.transfers.len() {
            assert(s2.transfers[i] == s.transfers[i]);
        }
    }
}

/// Each operation of a batch keeps a consistent storage consistent.
proof fn lemma_operation_consistent(s: StorageView, now: u64, this: Address, op: BatchOperation)
    requires
        consistent(s),
    ensures
        consistent(operation_step(s, now, this, op).storage),
{
    match op {
        BatchOperation::Create(p) => {
            if create_transfer_step(s, now, this, p.from, p.recipient, p.amount, p.expiry).result is Ok {
                lemma_create_consistent(s, now, this, p.from, p.recipient, p.amount, p.expiry);
            }
        },
        BatchOperation::Claim(p) => {
            if claim_transfer_step(s, now, this, p.id, p.recipient).result is Ok {
                lemma_settle_consistent(s, p.id, Status::Claimed);
            }
        },
        BatchOperation::Cancel(p) => {
            if cancel_transfer_step(s, now, this, p.id, p.from).result is Ok {
                lemma_settle_consistent(s, p.id, Status::Cancelled);
            }
        },
    }
}

proof fn lemma_run_consistent(s: StorageView, now: u64, this: Address, ops: Seq<BatchOperation>)
    requires
        consistent(s),
    ensures
        run_operations(s, now, this, ops).result is Ok ==> consistent(
            run_operations(s, now, this, ops).storage,
        ),
    decreases ops.len(),
{
    if ops.len() > 0 {
        lemma_run_consistent(s, now, this, ops.drop_last());
        let prev = run_operations(s, now, this, ops.drop_last());
        if prev.result is Ok {
            lemma_operation_consistent(prev.storage, now, this, ops.last());
        }
    }
}

/// The storage of a contract that was never called is consistent.
pub proof fn lemma_empty_storage_consistent()
    ensures
        consistent(StorageView::empty()),
{
    reveal(Seq::filter);
}

/// Every invocation keeps a consistent storage consistent: records stay in
/// id order under the counter with positive amounts, and the escrowed total
/// never exceeds `MAX_TOTAL_ESCROWED`.
pub proof fn lemma_invocations_keep_consistency(s: StorageView, now: u64, this: Address, inv: Invocation)
    requires
        consistent(s),
    ensures
        consistent(invocation_step(s, now, this, inv).storage),
{
    match inv {
        Invocation::Initialize { admin, token } => {
            reveal(Seq::filter);
        },
        Invocation::CreateTransfer { from, recipient, amount, expiry } => {
            if create_transfer_step(s, now, this, from, recipient, amount, expiry).result is Ok {
                lemma_create_consistent(s, now, this, from, recipient, amount, expiry);
            }
        },
        Invocation::ClaimTransfer { id, recipient } => {
            if claim_transfer_step(s, now, this, id, recipient).result is Ok {
                lemma_settle_consistent(s, id, Status::Claimed);
            }
        },
        Invocation::CancelTransfer { id, from } => {
            if cancel_transfer_step(s, now, this, id, from).result is Ok {
                lemma_settle_consistent(s, id, Status::Cancelled);
            }
        },
        Invocation::BatchOperations { operations } => {
            lemma_run_consistent(s, now, this, operations);
        },
        _ => {},
    }
}

/// `t2` is `t` with perhaps another status: same id, parties, amount and
/// expiry.
pub open spec fn same_but_status(t: Transfer, t2: Transfer) -> bool {
    t2 == Transfer { status: t2.status, ..t }
}

/// Batch operations never touch the admin, the nominee, the token, the
/// paused flag or the allowlist.
proof fn lemma_run_keeps_settings(s: StorageView, now: u64, this: Address, ops: Seq<BatchOperation>)
    ensures
        ({
            let r = run_operations(s, now, this, ops).storage;
            &&& r.admin == s.admin
            &&& r.pending_admin == s.pending_admin
            &&& r.token == s.token
            &&& r.paused == s.paused
            &&& r.allowed == s.allowed
        }),
    decreases ops.len(),
{
    if ops.len() > 0 {
        lemma_run_keeps_settings(s, now, this, ops.drop_last());
    }
}

/// One operation keeps every stored record, changing at most the status
/// of a pending one.
proof fn lemma_operation_settles_only(
    s: StorageView,
    now: u64,
    this: Address,
    op: BatchOperation,
    id: u64,
)
    requires
        consistent(s),
        s.transfer(id) is Some,
    ensures
        operation_step(s, now, this, op).storage.transfer(id) matches Some(t2) && same_but_status(
            s.transfer(id)->0,
            t2,
        ) && (s.transfer(id)->0.status != Status::Pending ==> t2 == s.transfer(id)->0),
{
    let t = s.transfer(id)->0;
    let p = lemma_stored_at(s.transfers, id);
    assert(1 <= s.transfers[p].id <= s.counter);
    match op {
        BatchOperation::Create(c) => {
            let new_id = (s.counter + 1) as u64;
            let nt = Transfer {
                id: new_id,
                from: c.from,
                recipient: c.recipient,
                amount: c.amount,
                expiry: c.expiry,
                status: Status::Pending,
            };
            lemma_put(s.transfers, nt);
        },
        BatchOperation::Claim(c) => {
            if claim_transfer_step(s, now, this, c.id, c.recipient).result is Ok {
                let ct = s.transfer(c.id)->0;
                lemma_put(s.transfers, Transfer { status: Status::Claimed, ..ct });
                crate::storage::lemma_stored_id(s.transfers, c.id);
            }
        },
        BatchOperation::Cancel(c) => {
            if cancel_transfer_step(s, now, this, c.id, c.from).result is Ok {
                let ct = s.transfer(c.id)->0;
                lemma_put(s.transfers, Transfer { status: Status::Cancelled, ..ct });
                crate::storage::lemma_stored_id(s.transfers, c.id);
            }
        },
    }
}

proof fn lemma_run_settles_only(s: StorageView, now: u64, this: Address, ops: Seq<BatchOperation>, id: u64)
    requires
        consistent(s),
        s.transfer(id) is Some,
    ensures
        run_operations(s, now, this, ops).result is Ok ==> (run_operations(s, now, this, ops).storage.transfer(
            id,
        ) matches Some(t2) && same_but_status(s.transfer(id)->0, t2) && (s.transfer(id)->0.status
            != Status::Pending ==> t2 == s.transfer(id)->0)),
    decreases ops.len(),
{
    if ops.len() > 0 {
        let prev = run_operations(s, now, this, ops.drop_last());
        lemma_run_settles_only(s, now, this, ops.drop_last(), id);
        lemma_run_consistent(s, now, this, ops.drop_last());
        if prev.result is Ok {
            lemma_operation_settles_only(prev.storage, now, this, ops.last(), id);
        }
    }
}

/// No invocation removes a stored transfer or changes its id, parties,
/// amount or expiry; only a pending transfer's status can change, so a
/// claimed or cancelled transfer is final.
pub proof fn lemma_records_only_settle(s: StorageView, now: u64, this: Address, inv: Invocation, id: u64)
    requires
        consistent(s),
        s.transfer(id) is Some,
    ensures
        invocation_step(s, now, this, inv).storage.transfer(id) matches Some(t2) && same_but_status(
            s.transfer(id)->0,
            t2,
        ) && (s.transfer(id)->0.status != Status::Pending ==> t2 == s.transfer(id)->0),
{
    match inv {
        Invocation::Initialize { admin, token } => {},
        Invocation::CreateTransfer { from, recipient, amount, expiry } => {
            lemma_operation_settles_only(
                s,
                now,
                this,
                BatchOperation::Create(
                    crate::types::CreateTransferOperation { from, recipient, amount, expiry },
                ),
                id,
            );
        },
        Invocation::ClaimTransfer { id: cid, recipient } => {
            lemma_operation_settles_only(
                s,
                now,
                this,
                BatchOperation::Claim(crate::types::ClaimTransferOperation { id: cid, recipient }),
                id,
            );
        },
        Invocation::CancelTransfer { id: cid, from } => {
            lemma_operation_settles_only(
                s,
                now,
                this,
                BatchOperation::Cancel(crate::types::CancelTransferOperation { id: cid, from }),
                id,
            );
        },
        Invocation::BatchOperations { operations } => {
            lemma_run_settles_only(s, now, this, operations, id);
        },
        _ => {},
    }
}

/// The admin changes only when the contract is first initialized, or when
/// the nominee of a two-step transfer accepts; the nominee then becomes the
/// admin. Once initialized, a contract stays initialized.
pub proof fn lemma_admin_changes_only_by_acceptance(
    s: StorageView,
    now: u64,
    this: Address,
    inv: Invocation,
)
    ensures
        ({
            let s2 = invocation_step(s, now, this, inv).storage;
            &&& s2.admin != s.admin ==> (inv is Initialize && s.admin is None) || (inv is AcceptAdmin
                && s.pending_admin is Some && s2.admin == s.pending_admin && s2.pending_admin is None)
            &&& s.admin is Some ==> s2.admin is Some
        }),
{
    if let Invocation::BatchOperations { operations } = inv {
        lemma_run_keeps_settings(s, now, this, operations);
    }
}

/// Only the transfer entrypoints move tokens: initialization, pausing,
/// allowlist changes and admin transfers make no token transfer, so the
/// admin cannot withdraw escrowed funds.
pub proof fn lemma_admin_moves_no_tokens(s: StorageView, now: u64, this: Address, inv: Invocation)
    requires
        !(inv is CreateTransfer || inv is ClaimTransfer || inv is CancelTransfer
            || inv is BatchOperations),
    ensures
        forall|i: int|
            0 <= i < invocation_step(s, now, this, inv).calls.len() ==> !(
            #[trigger] invocation_step(s, now, this, inv).calls[i] is TokenTransfer),
{
}

/// At one ledger time a transfer cannot be both claimable and cancellable:
/// a claim needs the expiry not yet passed, a cancellation needs it passed.
pub proof fn lemma_claim_and_cancel_exclusive(
    s: StorageView,
    now: u64,
    this: Address,
    id: u64,
    recipient: Address,
    from: Address,
)
    ensures
        !(claim_transfer_step(s, now, this, id, recipient).result is Ok && cancel_transfer_step(
            s,
            now,
            this,
            id,
            from,
        ).result is Ok),
{
}

/// Funds are released at most once: after a transfer is claimed or
/// cancelled, every later claim or cancellation of it fails, whoever asks
/// and whenever.
pub proof fn lemma_released_at_most_once(
    s: StorageView,
    now: u64,
    this: Address,
    id: u64,
    party: Address,
    claims: bool,
    later: u64,
    other: Address,
)
    requires
        ids_ascending(s.transfers),
        (if claims {
            claim_transfer_step(s, now, this, id, party)
        } else {
            cancel_transfer_step(s, now, this, id, party)
        }).result is Ok,
    ensures
        ({
            let s2 = (if claims {
                claim_transfer_step(s, now, this, id, party)
            } else {
                cancel_transfer_step(s, now, this, id, party)
            }).storage;
            &&& claim_transfer_step(s2, later, this, id, other).result is Err
            &&& cancel_transfer_step(s2, later, this, id, other).result is Err
            &&& s2.transfer(id) matches Some(t) && t.status == (if claims {
                Status::Claimed
            } else {
                Status::Cancelled
            })
        }),
{
    let t = s.transfer(id)->0;
    let st = if claims { Status::Claimed } else { Status::Cancelled };
    crate::storage::lemma_stored_id(s.transfers, id);
    lemma_put(s.transfers, Transfer { status: st, ..t });
}

/// Pausing gates only the creation of transfers: an initialized contract
/// that is paused refuses every creation with `ContractPaused`, while claims
/// and cancellations behave exactly as they do unpaused.
pub proof fn lemma_pause_gates_only_creation(
    s: StorageView,
    now: u64,
    this: Address,
    id: u64,
    party: Address,
    recipient: Address,
    amount: i128,
    expiry: u64,
    paused: bool,
)
    ensures
        s.token is Some && s.paused ==> create_transfer_step(
            s,
            now,
            this,
            party,
            recipient,
            amount,
            expiry,
        ).result == Err::<u64, Error>(Error::ContractPaused),
        ({
            let p = StorageView { paused, ..s };
            let a = claim_transfer_step(s, now, this, id, party);
            let b = claim_transfer_step(p, now, this, id, party);
            &&& a.result == b.result
            &&& a.calls == b.calls
            &&& b.storage == StorageView { paused, ..a.storage }
        }),
        ({
            let p = StorageView { paused, ..s };
            let a = cancel_transfer_step(s, now, this, id, party);
            let b = cancel_transfer_step(p, now, this, id, party);
            &&& a.result == b.result
            &&& a.calls == b.calls
            &&& b.storage == StorageView { paused, ..a.storage }
        }),
{
}

/// Transfer ids are issued in sequence: a created transfer gets the id after
/// the counter, the counter moves to it, and its record reads back pending
/// with the given parties, amount and expiry. In a consistent storage no
/// invocation lowers the counter.
pub proof fn lemma_ids_issued_in_sequence(
    s: StorageView,
    now: u64,
    this: Address,
    from: Address,
    recipient: Address,
    amount: i128,
    expiry: u64,
    inv: Invocation,
)
    requires
        consistent(s),
    ensures
        ({
            let st = create_transfer_step(s, now, this, from, recipient, amount, expiry);
            st.result matches Ok(id) ==> {
                &&& id == s.counter + 1
                &&& st.storage.counter == id
                &&& st.storage.transfer(id) == Some(
                    Transfer { id, from, recipient, amount, expiry, status: Status::Pending },
                )
            }
        }),
        invocation_step(s, now, this, inv).storage.counter >= s.counter,
{
    let id = (s.counter + 1) as u64;
    lemma_put(s.transfers, Transfer { id, from, recipient, amount, expiry, status: Status::Pending });
    if let Invocation::BatchOperations { operations } = inv {
        lemma_run_counter_monotone(s, now, this, operations);
    }
}

proof fn lemma_run_counter_monotone(s: StorageView, now: u64, this: Address, ops: Seq<BatchOperation>)
    ensures
        run_operations(s, now, this, ops).storage.counter >= s.counter,
    decreases ops.len(),
{
    if ops.len() > 0 {
        lemma_run_counter_monotone(s, now, this, ops.drop_last());
    }
}

/// A batch of one operation does what that operation's entrypoint does;
/// an empty batch succeeds with no results and changes nothing.
pub proof fn lemma_batch_matches_entrypoints(s: StorageView, now: u64, this: Address, op: BatchOperation)
    ensures
        ({
            let b = batch_step(s, now, this, seq![op]);
            let o = operation_step(s, now, this, op);
            &&& b.calls == o.calls
            &&& b.storage == o.storage
            &&& b.result == match o.result {
                Ok(r) => Ok(seq![r]),
                Err(e) => Err::<Seq<BatchOperationResult>, Error>(e),
            }
        }),
        batch_step(s, now, this, Seq::<BatchOperation>::empty()) == (Step {
            result: Ok(Seq::<BatchOperationResult>::empty()),
            storage: s,
            calls: Seq::<HostCall>::empty(),
        }),
{
    assert(seq![op].drop_last() =~= Seq::<BatchOperation>::empty());
    assert(Seq::<HostCall>::empty() + operation_step(s, now, this, op).calls =~= operation_step(s, now, this, op).calls);
    if let Ok(r) = operation_step(s, now, this, op).result {
        assert(Seq::<BatchOperationResult>::empty().push(r) =~= seq![r]);
    }
}

/// What one host call moves into the contract at `this`, in `token`: the
/// amount of a token transfer to it, less that of one from it.
pub open spec fn token_flow(c: HostCall, token: Option<Address>, this: Address) -> int {
    match c {
        HostCall::TokenTransfer { token: tk, from, to, amount } => if token == Some(tk) {
            (if to == this {
                amount as int
            } else {
                0
            }) - (if from == this {
                amount as int
            } else {
                0
            })
        } else {
            0
        },
        _ => 0,
    }
}

/// The net amount of `token` that `calls` move into the contract at `this`.
pub open spec fn net_inflow(calls: Seq<HostCall>, token: Option<Address>, this: Address) -> int
    decreases calls.len(),
{
    if calls.len() == 0 {
        0
    } else {
        net_inflow(calls.drop_last(), token, this) + token_flow(calls.last(), token, this)
    }
}

/// A batch operation that names no party but the contract's own address.
pub open spec fn operation_clear_of(op: BatchOperation, this: Address) -> bool {
    match op {
        BatchOperation::Create(p) => p.from != this,
        BatchOperation::Claim(p) => p.recipient != this,
        BatchOperation::Cancel(p) => p.from != this,
    }
}

/// An invocation in which the contract itself is not the party that pays
/// into escrow or is paid out of it.
pub open spec fn clear_of(inv: Invocation, this: Address) -> bool {
    match inv {
        Invocation::CreateTransfer { from, .. } => from != this,
        Invocation::ClaimTransfer { recipient, .. } => recipient != this,
        Invocation::CancelTransfer { from, .. } => from != this,
        Invocation::BatchOperations { operations } => forall|i: int|
            0 <= i < operations.len() ==> operation_clear_of(#[trigger] operations[i], this),
        _ => true,
    }
}

proof fn lemma_net_inflow_add(a: Seq<HostCall>, b: Seq<HostCall>, token: Option<Address>, this: Address)
    ensures
        net_inflow(a + b, token, this) == net_inflow(a, token, this) + net_inflow(b, token, this),
    decreases b.len(),
{
    if b.len() == 0 {
        assert(a + b =~= a);
    } else {
        assert((a + b).drop_last() =~= a + b.drop_last());
        lemma_net_inflow_add(a, b.drop_last(), token, this);
    }
}

proof fn lemma_net_inflow_no_transfers(calls: Seq<HostCall>, token: Option<Address>, this: Address)
    requires
        forall|i: int| 0 <= i < calls.len() ==> !(#[trigger] calls[i] is TokenTransfer),
    ensures
        net_inflow(calls, token, this) == 0,
    decreases calls.len(),
{
    if calls.len() > 0 {
        assert(!(calls[calls.len() - 1] is TokenTransfer));
        lemma_net_inflow_no_transfers(calls.drop_last(), token, this);
    }
}

proof fn lemma_operation_flow(s: StorageView, now: u64, this: Address, op: BatchOperation)
    requires
        consistent(s),
        operation_step(s, now, this, op).result is Ok,
        operation_clear_of(op, this),
    ensures
        pending_sum(operation_step(s, now, this, op).storage) == pending_sum(s) + net_inflow(
            operation_step(s, now, this, op).calls,
            s.token,
            this,
        ),
        operation_step(s, now, this, op).storage.token == s.token,
{
    reveal_with_fuel(net_inflow, 6);
    match op {
        BatchOperation::Create(p) => {
            lemma_create_consistent(s, now, this, p.from, p.recipient, p.amount, p.expiry);
        },
        BatchOperation::Claim(p) => {
            lemma_settle_consistent(s, p.id, Status::Claimed);
        },
        BatchOperation::Cancel(p) => {
            lemma_settle_consistent(s, p.id, Status::Cancelled);
        },
    }
}

proof fn lemma_run_flow(s: StorageView, now: u64, this: Address, ops: Seq<BatchOperation>)
    requires
        consistent(s),
        forall|i: int| 0 <= i < ops.len() ==> operation_clear_of(#[trigger] ops[i], this),
    ensures
        run_operations(s, now, this, ops).result is Ok ==> pending_sum(
            run_operations(s, now, this, ops).storage,
        ) == pending_sum(s) + net_inflow(run_operations(s, now, this, ops).calls, s.token, this),
    decreases ops.len(),
{
    if ops.len() > 0 {
        let prev = run_operations(s, now, this, ops.drop_last());
        lemma_run_flow(s, now, this, ops.drop_last());
        lemma_run_consistent(s, now, this, ops.drop_last());
        lemma_run_keeps_settings(s, now, this, ops.drop_last());
        if prev.result is Ok {
            let st = operation_step(prev.storage, now, this, ops.last());
            if st.result is Ok {
                assert(operation_clear_of(ops[ops.len() - 1], this));
                lemma_operation_flow(prev.storage, now, this, ops.last());
                lemma_net_inflow_add(prev.calls, st.calls, s.token, this);
            }
        }
    }
}

/// Escrow follows the tokens: every successful invocation changes the
/// escrowed total by exactly the net amount of the contract's token that
/// it moves into the contract, when the contract is not itself the payer
/// or payee. As a fresh contract holds no tokens and escrows nothing, the
/// contract's token balance always equals the total escrowed.
pub proof fn lemma_escrow_follows_tokens(s: StorageView, now: u64, this: Address, inv: Invocation)
    requires
        consistent(s),
        invocation_step(s, now, this, inv).result is Ok,
        clear_of(inv, this),
    ensures
        pending_sum(invocation_step(s, now, this, inv).storage) == pending_sum(s) + net_inflow(
            invocation_step(s, now, this, inv).calls,
            invocation_step(s, now, this, inv).storage.token,
            this,
        ),
{
    match inv {
        Invocation::CreateTransfer { from, recipient, amount, expiry } => {
            lemma_operation_flow(
                s,
                now,
                this,
                BatchOperation::Create(
                    crate::types::CreateTransferOperation { from, recipient, amount, expiry },
                ),
            );
        },
        Invocation::ClaimTransfer { id, recipient } => {
            lemma_operation_flow(
                s,
                now,
                this,
                BatchOperation::Claim(crate::types::ClaimTransferOperation { id, recipient }),
            );
        },
        Invocation::CancelTransfer { id, from } => {
            lemma_operation_flow(
                s,
                now,
                this,
                BatchOperation::Cancel(crate::types::CancelTransferOperation { id, from }),
            );
        },
        Invocation::BatchOperations { operations } => {
            lemma_run_flow(s, now, this, operations);
            lemma_run_keeps_settings(s, now, this, operations);
        },
        _ => {
            lemma_admin_moves_no_tokens(s, now, this, inv);
            let st = invocation_step(s, now, this, inv);
            lemma_net_inflow_no_transfers(st.calls, st.storage.token, this);
        },
    }
}

/// Filtering keeps records in ascending id order.
proof fn lemma_filter_ascending(s: Seq<Transfer>, p: spec_fn(Transfer) -> bool)
    requires
        ids_ascending(s),
    ensures
        ids_ascending(s.filter(p)),
    decreases s.len(),
{
    if s.len() > 0 {
        let dl = s.drop_last();
        let x = s.last();
        assert(s =~= dl.push(x));
        lemma_filter_ascending(dl, p);
        dl.lemma_filter_push(x, p);
        if p(x) {
            let f = dl.filter(p);
            assert forall|i: int, j: int|
                0 <= i < j < f.push(x).len() implies f.push(x)[i].id < f.push(x)[j].id by {
                if j == f.len() {
                    assert(f.contains(f[i]));
                    dl.lemma_filter_contains_rev(p, f[i]);
                    let k = choose|k: int| 0 <= k < dl.len() && dl[k] == f[i];
                    assert(s[k] == dl[k]);
                }
            }
        }
    }
}

/// An id range splits at `b` into the ids below `b` and those from `b` on.
proof fn lemma_filter_split_range(s: Seq<Transfer>, a: u64, b: u64, c: u64)
    requires
        ids_ascending(s),
        1 <= b,
        a <= b <= c + 1,
    ensures
        s.filter(id_between(a, c)) == s.filter(id_between(a, (b - 1) as u64)) + s.filter(
            id_between(b, c),
        ),
    decreases s.len(),
{
    let pa = id_between(a, (b - 1) as u64);
    let pb = id_between(b, c);
    let p = id_between(a, c);
    if s.len() == 0 {
        reveal(Seq::filter);
        assert(Seq::<Transfer>::empty() + Seq::<Transfer>::empty() =~= Seq::<Transfer>::empty());
    } else {
        let dl = s.drop_last();
        let x = s.last();
        assert(s =~= dl.push(x));
        lemma_filter_split_range(dl, a, b, c);
        dl.lemma_filter_push(x, p);
        dl.lemma_filter_push(x, pa);
        dl.lemma_filter_push(x, pb);
        if x.id < b {
            assert(dl.filter(pb) =~= Seq::<Transfer>::empty()) by {
                if dl.filter(pb).len() > 0 {
                    let y = dl.filter(pb)[0];
                    dl.lemma_filter_pred(pb, 0);
                    assert(dl.filter(pb).contains(y));
                    dl.lemma_filter_contains_rev(pb, y);
                    let k = choose|k: int| 0 <= k < dl.len() && dl[k] == y;
                    assert(s[k] == dl[k]);
                    assert(s[s.len() - 1] == x);
                }
            }
            assert(dl.filter(p).push(x) =~= dl.filter(pa).push(x) + dl.filter(pb));
            assert(dl.filter(p) =~= dl.filter(pa) + dl.filter(pb));
        } else {
            assert((dl.filter(pa) + dl.filter(pb)).push(x) =~= dl.filter(pa) + dl.filter(pb).push(x));
        }
    }
}

/// Paging neither skips nor repeats a record: when a page comes back full,
/// the records from its first id up to the counter are that page followed
/// by the records that the next page, starting one past its last id, draws
/// from.
pub proof fn lemma_paging_continues(s: StorageView, start_id: u64, limit: u32)
    requires
        ids_ascending(s.transfers),
        ({
            let page = page_of(s, start_id, limit);
            let size: u32 = if limit < MAX_PAGE_SIZE { limit } else { MAX_PAGE_SIZE };
            &&& page.len() == size
            &&& size > 0
            &&& page.last().id < u64::MAX
        }),
    ensures
        ({
            let page = page_of(s, start_id, limit);
            let first: u64 = if start_id < 1 { 1 } else { start_id };
            s.transfers.filter(id_between(first, s.counter)) == page + s.transfers.filter(
                id_between((page.last().id + 1) as u64, s.counter),
            )
        }),
{
    let page = page_of(s, start_id, limit);
    let first: u64 = if start_id < 1 { 1 } else { start_id };
    let size: u32 = if limit < MAX_PAGE_SIZE { limit } else { MAX_PAGE_SIZE };
    let f = s.transfers.filter(id_between(first, s.counter));
    let last = page.last().id;
    let b = (last + 1) as u64;
    let sa = s.transfers.filter(id_between(first, last));
    let sb = s.transfers.filter(id_between(b, s.counter));
    lemma_filter_ascending(s.transfers, id_between(first, s.counter));
    assert(size <= f.len());
    assert(page =~= f.take(size as int));
    assert(page.last() == f[size - 1]);
    s.transfers.lemma_filter_pred(id_between(first, s.counter), size - 1);
    lemma_filter_split_range(s.transfers, first, b, s.counter);
    assert(f == sa + sb);
    assert forall|i: int| 0 <= i < sa.len() implies (#[trigger] sa[i]).id <= last by {
        s.transfers.lemma_filter_pred(id_between(first, last), i);
    }
    assert forall|i: int| 0 <= i < sb.len() implies (#[trigger] sb[i]).id > last by {
        s.transfers.lemma_filter_pred(id_between(b, s.counter), i);
    }
    if size - 1 >= sa.len() {
        assert(f[size - 1] == sb[size - 1 - sa.len()]);
    }
    if sa.len() > size {
        assert(f[size as int] == sa[size as int]);
        assert(f[size - 1] == sa[size - 1]);
    }
    assert(sa.len() == size);
    assert(page =~= sa);
}

/// Every record with an id in `1..=counter` holds exactly one status, so the
/// three status counts add up to the number of such records.
pub proof fn lemma_status_counts_partition(s: StorageView)
    ensures
        count_of(s, Criterion::HasStatus(Status::Pending)) + count_of(
            s,
            Criterion::HasStatus(Status::Claimed),
        ) + count_of(s, Criterion::HasStatus(Status::Cancelled)) == s.transfers.filter(
            |t: Transfer| counted(t, s.counter),
        ).len(),
{
    lemma_partition_seq(s.transfers, s.counter);
}

proof fn lemma_partition_seq(s: Seq<Transfer>, c: u64)
    ensures
        s.filter(crate::contract::counted_meeting(c, Criterion::HasStatus(Status::Pending))).len()
            + s.filter(crate::contract::counted_meeting(c, Criterion::HasStatus(Status::Claimed))).len()
            + s.filter(crate::contract::counted_meeting(c, Criterion::HasStatus(Status::Cancelled))).len()
            == s.filter(|t: Transfer| counted(t, c)).len(),
    decreases s.len(),
{
    let p1 = crate::contract::counted_meeting(c, Criterion::HasStatus(Status::Pending));
    let p2 = crate::contract::counted_meeting(c, Criterion::HasStatus(Status::Claimed));
    let p3 = crate::contract::counted_meeting(c, Criterion::HasStatus(Status::Cancelled));
    let pc = |t: Transfer| counted(t, c);
    if s.len() == 0 {
        reveal(Seq::filter);
    } else {
        let dl = s.drop_last();
        let x = s.last();
        assert(s =~= dl.push(x));
        lemma_partition_seq(dl, c);
        dl.lemma_filter_push(x, p1);
        dl.lemma_filter_push(x, p2);
        dl.lemma_filter_push(x, p3);
        dl.lemma_filter_push(x, pc);
    }
}

/// Funds move only with the consent of the party they belong to: a created
/// transfer first requires the sender's authorization and pulls exactly
/// its amount from the sender; a claim requires the recorded recipient's
/// authorization and pays them the recorded amount; a cancellation requires
/// the recorded sender's authorization and refunds them the recorded amount.
pub proof fn lemma_payouts_need_owner(s: StorageView, now: u64, this: Address, inv: Invocation)
    requires
        invocation_step(s, now, this, inv).result is Ok,
        inv is CreateTransfer || inv is ClaimTransfer || inv is CancelTransfer,
    ensures
        ({
            let calls = invocation_step(s, now, this, inv).calls;
            match inv {
                Invocation::CreateTransfer { from, amount, .. } => {
                    &&& calls[0] == HostCall::RequireAuth(from)
                    &&& calls[1] == HostCall::TokenTransfer {
                        token: s.token->0,
                        from,
                        to: this,
                        amount,
                    }
                },
                Invocation::ClaimTransfer { id, .. } => {
                    let t = s.transfer(id)->0;
                    &&& calls[0] == HostCall::RequireAuth(t.recipient)
                    &&& calls[1] == HostCall::TokenTransfer {
                        token: s.token->0,
                        from: this,
                        to: t.recipient,
                        amount: t.amount,
                    }
                },
                Invocation::CancelTransfer { id, .. } => {
                    let t = s.transfer(id)->0;
                    &&& calls[0] == HostCall::RequireAuth(t.from)
                    &&& calls[1] == HostCall::TokenTransfer {
                        token: s.token->0,
                        from: this,
                        to: t.from,
                        amount: t.amount,
                    }
                },
                _ => true,
            }
        }),
{
}

/// Only the admin can pause, unpause, change the allowlist or nominate a
/// successor: each such invocation, when it succeeds, first requires the
/// stored admin's authorization. Accepting an admin transfer first requires
/// the nominee's.
pub proof fn lemma_privileged_need_admin(s: StorageView, now: u64, this: Address, inv: Invocation)
    requires
        invocation_step(s, now, this, inv).result is Ok,
        inv is Pause || inv is Unpause || inv is AddCaller || inv is RemoveCaller
            || inv is TransferAdmin || inv is AcceptAdmin,
    ensures
        s.admin is Some,
        invocation_step(s, now, this, inv).calls[0] == HostCall::RequireAuth(
            if inv is AcceptAdmin {
                s.pending_admin->0
            } else {
                s.admin->0
            },
        ),
{
}

} // verus!

verus! {

/// A batch never skips an operation: a batch that succeeds has one result
/// per operation, and running one more operation after a batch does exactly
/// what that operation's own entrypoint does on the storage the batch left,
/// its result appended to the batch's results. A batch that has failed stays
/// failed.
pub proof fn lemma_batch_runs_every_operation(
    s: StorageView,
    now: u64,
    this: Address,
    ops: Seq<BatchOperation>,
    op: BatchOperation,
)
    ensures
        run_operations(s, now, this, ops).result matches Ok(rs) ==> rs.len() == ops.len(),
        ({
            let prev = run_operations(s, now, this, ops);
            let next = run_operations(s, now, this, ops.push(op));
            match prev.result {
                Err(_) => next == prev,
                Ok(rs) => match op {
                    BatchOperation::Create(p) => {
                        let st = create_transfer_step(
                            prev.storage,
                            now,
                            this,
                            p.from,
                            p.recipient,
                            p.amount,
                            p.expiry,
                        );
                        &&& next.storage == st.storage
                        &&& next.calls == prev.calls + st.calls
                        &&& next.result == match st.result {
                            Ok(id) => Ok(rs.push(BatchOperationResult::Created(id))),
                            Err(e) => Err(e),
                        }
                    },
                    BatchOperation::Claim(p) => {
                        let st = claim_transfer_step(prev.storage, now, this, p.id, p.recipient);
                        &&& next.storage == st.storage
                        &&& next.calls == prev.calls + st.calls
                        &&& next.result == match st.result {
                            Ok(_) => Ok(rs.push(BatchOperationResult::Claimed)),
                            Err(e) => Err(e),
                        }
                    },
                    BatchOperation::Cancel(p) => {
                        let st = cancel_transfer_step(prev.storage, now, this, p.id, p.from);
                        &&& next.storage == st.storage
                        &&& next.calls == prev.calls + st.calls
                        &&& next.result == match st.result {
                            Ok(_) => Ok(rs.push(BatchOperationResult::Cancelled)),
                            Err(e) => Err(e),
                        }
                    },
                },
            }
        }),
    decreases ops.len(),
{
    assert(ops.push(op).drop_last() =~= ops);
    if ops.len() > 0 {
        lemma_batch_runs_every_operation(s, now, this, ops.drop_last(), ops.last());
        assert(ops.drop_last().push(ops.last()) =~= ops);
    }
}

/// A page lists, in ascending id order, the stored transfers with ids from
/// `max(start_id, 1)` up to the counter, as many of them as
/// `min(limit, MAX_PAGE_SIZE)` allows: every record on the page is stored
/// under its id within that range, and a page that is not full holds every
/// such record.
pub proof fn lemma_page_lists_stored_transfers(s: StorageView, start_id: u64, limit: u32)
    requires
        ids_ascending(s.transfers),
    ensures
        ({
            let first: u64 = if start_id < 1 { 1 } else { start_id };
            let size: int = if limit < MAX_PAGE_SIZE { limit as int } else { MAX_PAGE_SIZE as int };
            let listed = s.transfers.filter(
                |t: Transfer| first <= t.id && t.id <= s.counter,
            );
            let page = page_of(s, start_id, limit);
            &&& page.len() == if size < listed.len() { size } else { listed.len() as int }
            &&& forall|i: int| 0 <= i < page.len() ==> #[trigger] page[i] == listed[i]
            &&& forall|i: int|
                0 <= i < page.len() ==> first <= (#[trigger] page[i]).id <= s.counter
                    && s.transfer(page[i].id) == Some(page[i])
            &&& forall|i: int, j: int| 0 <= i < j < page.len() ==> page[i].id < page[j].id
            &&& page.len() < size ==> forall|id: u64|
                first <= id <= s.counter && #[trigger] s.transfer(id) is Some ==> page.contains(
                    s.transfer(id)->0,
                )
        }),
{
    let first: u64 = if start_id < 1 { 1 } else { start_id };
    let size: int = if limit < MAX_PAGE_SIZE { limit as int } else { MAX_PAGE_SIZE as int };
    let p = id_between(first, s.counter);
    let q = |t: Transfer| first <= t.id && t.id <= s.counter;
    assert forall|i: int| 0 <= i < s.transfers.len() implies p(#[trigger] s.transfers[i]) == q(
        s.transfers[i],
    ) by {}
    lemma_filter_agree(s.transfers, p, q);
    let listed = s.transfers.filter(p);
    let page = page_of(s, start_id, limit);
    assert(page == first_n(listed, size));
    lemma_filter_ascending(s.transfers, p);
    assert forall|i: int| 0 <= i < page.len() implies first <= (#[trigger] page[i]).id <= s.counter
        && s.transfer(page[i].id) == Some(page[i]) by {
        assert(page[i] == listed[i]);
        s.transfers.lemma_filter_pred(p, i);
        assert(listed.contains(listed[i]));
        s.transfers.lemma_filter_contains_rev(p, listed[i]);
        let k = choose|k: int| 0 <= k < s.transfers.len() && s.transfers[k] == listed[i];
        crate::storage::lemma_stored_index(s.transfers, k);
    }
    assert forall|i: int, j: int| 0 <= i < j < page.len() implies page[i].id < page[j].id by {
        assert(page[i] == listed[i]);
        assert(page[j] == listed[j]);
    }
    if page.len() < size {
        assert(page == listed);
        assert forall|id: u64|
            first <= id <= s.counter && #[trigger] s.transfer(id) is Some implies page.contains(
            s.transfer(id)->0,
        ) by {
            lemma_stored_member(s.transfers, id);
            let k = choose|k: int|
                0 <= k < s.transfers.len() && s.transfers[k] == stored(s.transfers, id)->0
                    && s.transfers[k].id == id;
            s.transfers.lemma_filter_contains(p, k);
        }
    }
}

/// Whether a creation succeeds depends on the ledger time and the expiry
/// only through how far ahead the expiry lies: two creations whose expiries
/// lie equally far ahead of their ledger times give the same result.
pub proof fn lemma_create_depends_on_expiry_distance(
    s: StorageView,
    this: Address,
    from: Address,
    recipient: Address,
    amount: i128,
    now1: u64,
    expiry1: u64,
    now2: u64,
    expiry2: u64,
)
    requires
        expiry1 - now1 == expiry2 - now2,
    ensures
        create_transfer_step(s, now1, this, from, recipient, amount, expiry1).result
            == create_transfer_step(s, now2, this, from, recipient, amount, expiry2).result,
{
}

/// A creation that every rule admits succeeds: in an initialized, unpaused
/// contract, an allowlisted sender paying a distinct recipient a positive
/// amount of at most `MAX_AMOUNT` that keeps the escrow within
/// `MAX_TOTAL_ESCROWED`, with an expiry after now and at most
/// `MAX_EXPIRY_WINDOW` seconds ahead, gets the id after the counter; the new
/// record reads back pending and every other record is unchanged.
pub proof fn lemma_create_succeeds_within_window(
    s: StorageView,
    now: u64,
    this: Address,
    from: Address,
    recipient: Address,
    amount: i128,
    expiry: u64,
)
    requires
        consistent(s),
        s.token is Some,
        !s.paused,
        s.allowed.contains(from),
        0 < amount <= crate::MAX_AMOUNT,
        pending_sum(s) + amount <= MAX_TOTAL_ESCROWED,
        now < expiry <= now + crate::MAX_EXPIRY_WINDOW,
        from != recipient,
        s.counter < u64::MAX,
    ensures
        ({
            let st = create_transfer_step(s, now, this, from, recipient, amount, expiry);
            let id = (s.counter + 1) as u64;
            &&& st.result == Ok::<u64, Error>(id)
            &&& st.storage.counter == id
            &&& st.storage.transfer(id) == Some(
                Transfer { id, from, recipient, amount, expiry, status: Status::Pending },
            )
            &&& forall|other: u64| other != id ==> #[trigger] st.storage.transfer(other)
                == s.transfer(other)
            &&& st.storage == StorageView { transfers: st.storage.transfers, counter: id, ..s }
        }),
{
    lemma_total_escrowed_exact(s);
    let id = (s.counter + 1) as u64;
    let t = Transfer { id, from, recipient, amount, expiry, status: Status::Pending };
    lemma_put(s.transfers, t);
}

/// The counts go by the field they name: `count_for_sender(a)` counts the
/// transfers with ids in `1..=counter` sent by `a`, `count_for_recipient(a)`
/// those whose recipient is `a`, and `count_by_status(st)` those with status
/// `st`; no other transfer is counted.
pub proof fn lemma_counts_go_by_field(s: StorageView, a: Address, st: Status)
    ensures
        count_of(s, Criterion::Sender(a)) == s.transfers.filter(
            |t: Transfer| 1 <= t.id && t.id <= s.counter && t.from == a,
        ).len(),
        count_of(s, Criterion::Recipient(a)) == s.transfers.filter(
            |t: Transfer| 1 <= t.id && t.id <= s.counter && t.recipient == a,
        ).len(),
        count_of(s, Criterion::HasStatus(st)) == s.transfers.filter(
            |t: Transfer| 1 <= t.id && t.id <= s.counter && t.status == st,
        ).len(),
{
    let c = s.counter;
    lemma_filter_agree(
        s.transfers,
        crate::contract::counted_meeting(c, Criterion::Sender(a)),
        |t: Transfer| 1 <= t.id && t.id <= c && t.from == a,
    );
    lemma_filter_agree(
        s.transfers,
        crate::contract::counted_meeting(c, Criterion::Recipient(a)),
        |t: Transfer| 1 <= t.id && t.id <= c && t.recipient == a,
    );
    lemma_filter_agree(
        s.transfers,
        crate::contract::counted_meeting(c, Criterion::HasStatus(st)),
        |t: Transfer| 1 <= t.id && t.id <= c && t.status == st,
    );
}

/// Allowlist changes touch only the named caller: once initialized, adding
/// a caller always leaves it on the allowlist, whatever the allowlist held
/// before, and removing one always takes it off; every other address keeps
/// its standing and nothing else in the storage changes. Before
/// initialization both fail with `NotInitialized` and change nothing.
pub proof fn lemma_allowlist_changes_only_caller(s: StorageView, caller: Address, allowed: bool)
    ensures
        ({
            let st = set_caller_step(s, caller, allowed);
            if s.admin is Some {
                &&& st.result == Ok::<(), Error>(())
                &&& st.storage.allowed.contains(caller) == allowed
                &&& forall|x: Address| x != caller ==> #[trigger] st.storage.allowed.contains(x)
                    == s.allowed.contains(x)
                &&& st.storage == StorageView { allowed: st.storage.allowed, ..s }
            } else {
                &&& st.result == Err::<(), Error>(Error::NotInitialized)
                &&& st.storage == s
            }
        }),
{
}

/// A creation succeeds exactly when every rule admits it: the contract is
/// initialized and unpaused, the sender is allowlisted, the amount is
/// positive and at most `MAX_AMOUNT`, the escrow stays within
/// `MAX_TOTAL_ESCROWED`, the expiry lies after now and at most
/// `MAX_EXPIRY_WINDOW` seconds ahead, the parties differ and an id is left.
/// A refused creation changes nothing in the storage.
pub proof fn lemma_create_succeeds_iff_admitted(
    s: StorageView,
    now: u64,
    this: Address,
    from: Address,
    recipient: Address,
    amount: i128,
    expiry: u64,
)
    requires
        consistent(s),
    ensures
        ({
            let st = create_transfer_step(s, now, this, from, recipient, amount, expiry);
            &&& st.result is Ok <==> {
                &&& s.token is Some
                &&& !s.paused
                &&& s.allowed.contains(from)
                &&& 0 < amount <= crate::MAX_AMOUNT
                &&& pending_sum(s) + amount <= MAX_TOTAL_ESCROWED
                &&& now < expiry <= now + crate::MAX_EXPIRY_WINDOW
                &&& from != recipient
                &&& s.counter < u64::MAX
            }
            &&& st.result is Err ==> st.storage == s
        }),
{
    lemma_total_escrowed_exact(s);
}

/// A claim succeeds exactly when the transfer is stored, the claimant is its
/// recipient, it is still pending, its expiry has not passed and the
/// contract has a token; it then marks that transfer claimed and leaves
/// every other record and setting as it was. A refused claim changes
/// nothing.
pub proof fn lemma_claim_succeeds_iff_admitted(
    s: StorageView,
    now: u64,
    this: Address,
    id: u64,
    recipient: Address,
)
    requires
        ids_ascending(s.transfers),
    ensures
        ({
            let st = claim_transfer_step(s, now, this, id, recipient);
            &&& st.result is Ok <==> {
                &&& s.transfer(id) matches Some(t)
                &&& t.recipient == recipient
                &&& t.status == Status::Pending
                &&& now <= t.expiry
                &&& s.token is Some
            }
            &&& st.result is Ok ==> {
                &&& st.storage.transfer(id) == Some(
                    Transfer { status: Status::Claimed, ..s.transfer(id)->0 },
                )
                &&& forall|other: u64| other != id ==> #[trigger] st.storage.transfer(other)
                    == s.transfer(other)
                &&& st.storage == StorageView { transfers: st.storage.transfers, ..s }
            }
            &&& st.result is Err ==> st.storage == s
        }),
{
    if let Some(t) = s.transfer(id) {
        crate::storage::lemma_stored_id(s.transfers, id);
        lemma_put(s.transfers, Transfer { status: Status::Claimed, ..t });
    }
}

/// A cancellation succeeds exactly when the transfer is stored, the caller
/// is its sender, it is still pending, its expiry has passed and the
/// contract has a token; it then marks that transfer cancelled and leaves
/// every other record and setting as it was. A refused cancellation changes
/// nothing.
pub proof fn lemma_cancel_succeeds_iff_admitted(
    s: StorageView,
    now: u64,
    this: Address,
    id: u64,
    from: Address,
)
    requires
        ids_ascending(s.transfers),
    ensures
        ({
            let st = cancel_transfer_step(s, now, this, id, from);
            &&& st.result is Ok <==> {
                &&& s.transfer(id) matches Some(t)
                &&& t.from == from
                &&& t.status == Status::Pending
                &&& now > t.expiry
                &&& s.token is Some
            }
            &&& st.result is Ok ==> {
                &&& st.storage.transfer(id) == Some(
                    Transfer { status: Status::Cancelled, ..s.transfer(id)->0 },
                )
                &&& forall|other: u64| other != id ==> #[trigger] st.storage.transfer(other)
                    == s.transfer(other)
                &&& st.storage == StorageView { transfers: st.storage.transfers, ..s }
            }
            &&& st.result is Err ==> st.storage == s
        }),
{
    if let Some(t) = s.transfer(id) {
        crate::storage::lemma_stored_id(s.transfers, id);
        lemma_put(s.transfers, Transfer { status: Status::Cancelled, ..t });
    }
}

} // verus!
