//! The contract's storage: what it holds, the keys it is addressed by, and
//! the accessors that every entrypoint goes through.
//!
//! Instance storage holds the admin, the pending admin, the token, the
//! transfer counter and the paused flag. Persistent storage holds one record
//! per transfer, keyed by id, and one allowlist flag per privileged caller.
//! Transfers are kept in ascending id order, so that a scan over the stored
//! records visits them as a scan over ids would.

use vstd::prelude::*;

use crate::env::{Env, HostCall};
use crate::types::{Address, Transfer};

verus! {

/// Number of ledgers used as the threshold before bumping instance TTL.
pub const INSTANCE_BUMP_THRESHOLD: u32 = 518_400;

/// Number of ledgers the instance TTL is extended to when bumped.
pub const INSTANCE_BUMP_AMOUNT: u32 = 535_680;

/// Number of ledgers used as the threshold before bumping persistent TTL.
pub const PERSISTENT_BUMP_THRESHOLD: u32 = 518_400;

/// Number of ledgers the persistent TTL is extended to when bumped.
pub const PERSISTENT_BUMP_AMOUNT: u32 = 535_680;

/// Keys of the values held in instance storage.
#[derive(Clone, Copy, Debug, PartialEq, Eq, Structural)]
pub enum InstanceKey {
    /// Administrator address.
    Admin,
    /// Nominated successor awaiting acceptance; present only while a
    /// two-step admin transfer is in progress.
    PendingAdmin,
    /// Token contract address used for transfers.
    Token,
    /// Monotonic counter for issued transfer ids.
    Counter,
    /// Paused flag gating new transfers.
    Paused,
}

/// Keys of the values held in persistent storage.
#[derive(Clone, Copy, Debug, PartialEq, Eq)]
pub enum PersistentKey {
    /// A single transfer record keyed by its id.
    Transfer(u64),
    /// Flag marking an address as an allowed privileged caller.
    AllowedCaller(Address),
}

/// Keys used to address values in contract storage, of either kind.
#[derive(Clone, Copy, Debug, PartialEq, Eq)]
pub enum DataKey {
    /// Administrator address (instance storage).
    Admin,
    /// Nominated successor awaiting acceptance (instance storage).
    PendingAdmin,
    /// Token contract address used for transfers (instance storage).
    Token,
    /// Monotonic counter for issued transfer ids (instance storage).
    Counter,
    /// Paused flag gating new transfers (instance storage).
    Paused,
    /// A single transfer record keyed by its id (persistent storage).
    Transfer(u64),
    /// Flag indicating whether an address is an allowed privileged caller
    /// (persistent storage).
    AllowedCaller(Address),
}

impl DataKey {
    /// The key under which an instance value is stored.
    pub fn instance(key: InstanceKey) -> (r: DataKey)
        ensures
            r == (match key {
                InstanceKey::Admin => DataKey::Admin,
                InstanceKey::PendingAdmin => DataKey::PendingAdmin,
                InstanceKey::Token => DataKey::Token,
                InstanceKey::Counter => DataKey::Counter,
                InstanceKey::Paused => DataKey::Paused,
            }),
    {
        match key {
            InstanceKey::Admin => DataKey::Admin,
            InstanceKey::PendingAdmin => DataKey::PendingAdmin,
            InstanceKey::Token => DataKey::Token,
            InstanceKey::Counter => DataKey::Counter,
            InstanceKey::Paused => DataKey::Paused,
        }
    }

    /// The key under which a persistent value is stored.
    pub fn persistent(key: PersistentKey) -> (r: DataKey)
        ensures
            r == (match key {
                PersistentKey::Transfer(id) => DataKey::Transfer(id),
                PersistentKey::AllowedCaller(a) => DataKey::AllowedCaller(a),
            }),
    {
        match key {
            PersistentKey::Transfer(id) => DataKey::Transfer(id),
            PersistentKey::AllowedCaller(a) => DataKey::AllowedCaller(a),
        }
    }
}

/// Transfer records in strictly ascending id order: no id occurs twice.
pub open spec fn ids_ascending(s: Seq<Transfer>) -> bool {
    forall|i: int, j: int| 0 <= i < j < s.len() ==> s[i].id < s[j].id
}

/// The record stored under `id` in an ascending sequence of records.
pub open spec fn stored(s: Seq<Transfer>, id: u64) -> Option<Transfer>
    decreases s.len(),
{
    if s.len() == 0 {
        None
    } else if s.last().id == id {
        Some(s.last())
    } else {
        stored(s.drop_last(), id)
    }
}

/// The records of `s` after `t` is stored under its id, replacing any
/// record with that id, in ascending id order.
pub open spec fn put(s: Seq<Transfer>, t: Transfer) -> Seq<Transfer>
    decreases s.len(),
{
    if s.len() == 0 {
        seq![t]
    } else if s.last().id < t.id {
        s.push(t)
    } else if s.last().id == t.id {
        s.drop_last().push(t)
    } else {
        put(s.drop_last(), t).push(s.last())
    }
}

/// What the storage holds, as the contract's rules speak of it.
pub struct StorageView {
    pub admin: Option<Address>,
    pub pending_admin: Option<Address>,
    pub token: Option<Address>,
    pub counter: u64,
    pub paused: bool,
    /// The stored transfer records, in ascending id order.
    pub transfers: Seq<Transfer>,
    /// The addresses on the privileged callers allowlist.
    pub allowed: Set<Address>,
}

impl StorageView {
    /// The storage of a contract that has never been called.
    pub open spec fn empty() -> StorageView {
        StorageView {
            admin: None,
            pending_admin: None,
            token: None,
            counter: 0,
            paused: false,
            transfers: Seq::empty(),
            allowed: Set::empty(),
        }
    }

    /// The transfer record stored under `id`, if any.
    pub open spec fn transfer(self, id: u64) -> Option<Transfer> {
        stored(self.transfers, id)
    }
}

/// The contract's storage.
pub struct Storage {
    pub admin: Option<Address>,
    pub pending_admin: Option<Address>,
    pub token: Option<Address>,
    pub counter: u64,
    pub paused: bool,
    pub transfers: Vec<Transfer>,
    pub allowed: Vec<Address>,
}

impl View for Storage {
    type V = StorageView;

    open spec fn view(&self) -> StorageView {
        StorageView {
            admin: self.admin,
            pending_admin: self.pending_admin,
            token: self.token,
            counter: self.counter,
            paused: self.paused,
            transfers: self.transfers@,
            allowed: self.allowed@.to_set(),
        }
    }
}

impl Storage {
    /// Well-formedness: records in ascending id order, allowlist without
    /// repetitions.
    pub open spec fn wf(&self) -> bool {
        &&& ids_ascending(self.transfers@)
        &&& self.allowed@.no_duplicates()
    }

    /// Empty storage, as a freshly deployed contract has it.
    pub fn new() -> (r: Storage)
        ensures
            r.wf(),
            r@ == StorageView::empty(),
    {
        let r = Storage {
            admin: None,
            pending_admin: None,
            token: None,
            counter: 0,
            paused: false,
            transfers: Vec::new(),
            allowed: Vec::new(),
        };
        assert(r@.allowed =~= Set::<Address>::empty());
        r
    }
}

impl Storage {
    /// A copy of this storage.
    pub fn snapshot(&self) -> (r: Storage)
        ensures
            r@ == self@,
            r.wf() == self.wf(),
    {
        let mut transfers: Vec<Transfer> = Vec::new();
        let mut i: usize = 0;
        while i < self.transfers.len()
            invariant
                0 <= i <= self.transfers@.len(),
                transfers@ == self.transfers@.take(i as int),
            decreases self.transfers@.len() - i,
        {
            transfers.push(self.transfers[i]);
            assert(self.transfers@.take(i + 1) =~= self.transfers@.take(i as int).push(
                self.transfers@[i as int],
            ));
            i = i + 1;
        }
        let mut allowed: Vec<Address> = Vec::new();
        let mut j: usize = 0;
        while j < self.allowed.len()
            invariant
                0 <= j <= self.allowed@.len(),
                allowed@ == self.allowed@.take(j as int),
            decreases self.allowed@.len() - j,
        {
            allowed.push(self.allowed[j]);
            assert(self.allowed@.take(j + 1) =~= self.allowed@.take(j as int).push(
                self.allowed@[j as int],
            ));
            j = j + 1;
        }
        assert(transfers@ =~= self.transfers@);
        assert(allowed@ =~= self.allowed@);
        Storage {
            admin: self.admin,
            pending_admin: self.pending_admin,
            token: self.token,
            counter: self.counter,
            paused: self.paused,
            transfers,
            allowed,
        }
    }
}

pub proof fn lemma_stored_index(s: Seq<Transfer>, i: int)
    requires
        ids_ascending(s),
        0 <= i < s.len(),
    ensures
        stored(s, s[i].id) == Some(s[i]),
    decreases s.len(),
{
    if i < s.len() - 1 {
        lemma_stored_index(s.drop_last(), i);
    }
}

pub proof fn lemma_stored_absent(s: Seq<Transfer>, id: u64)
    requires
        forall|i: int| 0 <= i < s.len() ==> s[i].id != id,
    ensures
        stored(s, id) is None,
    decreases s.len(),
{
    if s.len() > 0 {
        lemma_stored_absent(s.drop_last(), id);
    }
}

/// A record found under `id` carries that id.
pub proof fn lemma_stored_id(s: Seq<Transfer>, id: u64)
    ensures
        stored(s, id) matches Some(t) ==> t.id == id,
    decreases s.len(),
{
    if s.len() > 0 && s.last().id != id {
        lemma_stored_id(s.drop_last(), id);
    }
}

pub proof fn lemma_stored_member(s: Seq<Transfer>, id: u64)
    requires
        stored(s, id) is Some,
    ensures
        exists|i: int| 0 <= i < s.len() && s[i] == stored(s, id)->0 && s[i].id == id,
    decreases s.len(),
{
    if s.last().id == id {
        assert(s[s.len() - 1] == s.last());
    } else {
        lemma_stored_member(s.drop_last(), id);
        let i = choose|i: int|
            0 <= i < s.drop_last().len() && s.drop_last()[i] == stored(s.drop_last(), id)->0
                && s.drop_last()[i].id == id;
        assert(s[i] == s.drop_last()[i]);
    }
}

/// `put` keeps records ascending, stores the new record under its id and
/// leaves every other id as it was; it keeps every id below a bound that the
/// old ids and the new id are all below.
pub proof fn lemma_put(s: Seq<Transfer>, t: Transfer)
    requires
        ids_ascending(s),
    ensures
        ids_ascending(put(s, t)),
        forall|id: u64| #[trigger]
            stored(put(s, t), id) == if id == t.id {
                Some(t)
            } else {
                stored(s, id)
            },
        forall|i: int|
            0 <= i < put(s, t).len() ==> #[trigger] put(s, t)[i] == t || s.contains(put(s, t)[i]),
    decreases s.len(),
{
    if s.len() == 0 {
        assert(seq![t].drop_last() =~= s);
    } else if s.last().id < t.id {
        assert(s.push(t).drop_last() =~= s);
    } else if s.last().id == t.id {
        assert(s.drop_last().push(t).drop_last() =~= s.drop_last());
        assert forall|id: u64| #[trigger]
            stored(put(s, t), id) == if id == t.id {
                Some(t)
            } else {
                stored(s, id)
            } by {}
    } else {
        let dl = s.drop_last();
        lemma_put(dl, t);
        let p = put(dl, t);
        assert(p.push(s.last()).drop_last() =~= p);
        assert forall|id: u64| #[trigger]
            stored(put(s, t), id) == if id == t.id {
                Some(t)
            } else {
                stored(s, id)
            } by {
            assert(stored(put(s, t), id) == if s.last().id == id {
                Some(s.last())
            } else {
                stored(p, id)
            });
        }
        assert forall|i: int| 0 <= i < dl.len() implies #[trigger] dl[i].id < s.last().id by {
            assert(dl[i] == s[i]);
        }
        assert forall|i: int, j: int|
            0 <= i < j < put(s, t).len() implies put(s, t)[i].id < put(s, t)[j].id by {
            if j == put(s, t).len() - 1 {
                if p[i] != t {
                    let k = choose|k: int| 0 <= k < dl.len() && dl[k] == p[i];
                }
                assert(p[i].id < s.last().id);
            } else {
                assert(put(s, t)[i] == p[i]);
                assert(put(s, t)[j] == p[j]);
            }
        }
        assert forall|i: int| 0 <= i < put(s, t).len() implies #[trigger] put(s, t)[i] == t
            || s.contains(put(s, t)[i]) by {
            if i == put(s, t).len() - 1 {
                assert(s[s.len() - 1] == s.last());
            } else {
                assert(put(s, t)[i] == p[i]);
                if p[i] != t {
                    let k = choose|k: int| 0 <= k < dl.len() && dl[k] == p[i];
                    assert(s[k] == dl[k]);
                }
            }
        }
    }
}

/// Where the first id not below `t.id` sits at `p`, `put` replaces the
/// record at `p` when it has `t`'s id, and inserts `t` there otherwise.
pub proof fn lemma_put_at(s: Seq<Transfer>, t: Transfer, p: int)
    requires
        ids_ascending(s),
        0 <= p <= s.len(),
        forall|i: int| 0 <= i < p ==> s[i].id < t.id,
        p < s.len() ==> s[p].id >= t.id,
    ensures
        put(s, t) == if p < s.len() && s[p].id == t.id {
            s.update(p, t)
        } else {
            s.insert(p, t)
        },
    decreases s.len(),
{
    if s.len() == 0 {
        assert(seq![t] =~= s.insert(p, t));
    } else if s.last().id < t.id {
        if p < s.len() {
            assert(s[s.len() - 1].id >= s[p].id);
        }
        assert(s.push(t) =~= s.insert(p, t));
    } else if s.last().id == t.id {
        if p < s.len() - 1 {
            assert(s[p].id < s[s.len() - 1].id);
        }
        if p == s.len() {
            assert(s[s.len() - 1].id < t.id);
        }
        assert(s.drop_last().push(t) =~= s.update(p, t));
    } else {
        if p == s.len() {
            assert(s[s.len() - 1].id < t.id);
        }
        let dl = s.drop_last();
        assert forall|i: int| 0 <= i < p implies dl[i].id < t.id by {
            assert(dl[i] == s[i]);
        }
        if p < dl.len() {
            assert(dl[p] == s[p]);
        }
        lemma_put_at(dl, t, p);
        if p < s.len() && s[p].id == t.id {
            assert(dl.update(p, t).push(s.last()) =~= s.update(p, t));
        } else {
            assert(dl.insert(p, t).push(s.last()) =~= s.insert(p, t));
        }
    }
}

/// Read the administrator address.
pub fn get_admin(env: &Env) -> (r: Option<Address>)
    ensures
        r == env.storage@.admin,
{
    env.storage.admin
}

/// Returns true if the administrator has already been configured.
pub fn has_admin(env: &Env) -> (r: bool)
    ensures
        r == env.storage@.admin is Some,
{
    env.storage.admin.is_some()
}

/// Store the administrator address.
pub fn set_admin(env: &mut Env, admin: &Address)
    ensures
        final(env).storage@ == (StorageView { admin: Some(*admin), ..old(env).storage@ }),
        final(env).storage.wf() == old(env).storage.wf(),
        final(env).kept_context(*old(env)),
        final(env).host_calls@ == old(env).host_calls@,
{
    env.storage.admin = Some(*admin);
}

/// Read the pending (nominee) admin address, if any.
pub fn get_pending_admin(env: &Env) -> (r: Option<Address>)
    ensures
        r == env.storage@.pending_admin,
{
    env.storage.pending_admin
}

/// Store the pending (nominee) admin address.
pub fn set_pending_admin(env: &mut Env, pending: &Address)
    ensures
        final(env).storage@ == (StorageView {
            pending_admin: Some(*pending),
            ..old(env).storage@
        }),
        final(env).storage.wf() == old(env).storage.wf(),
        final(env).kept_context(*old(env)),
        final(env).host_calls@ == old(env).host_calls@,
{
    env.storage.pending_admin = Some(*pending);
}

/// Remove the pending admin entry.
pub fn clear_pending_admin(env: &mut Env)
    ensures
        final(env).storage@ == (StorageView { pending_admin: None, ..old(env).storage@ }),
        final(env).storage.wf() == old(env).storage.wf(),
        final(env).kept_context(*old(env)),
        final(env).host_calls@ == old(env).host_calls@,
{
    env.storage.pending_admin = None;
}

/// Store the token contract address.
pub fn set_token(env: &mut Env, token: &Address)
    ensures
        final(env).storage@ == (StorageView { token: Some(*token), ..old(env).storage@ }),
        final(env).storage.wf() == old(env).storage.wf(),
        final(env).kept_context(*old(env)),
        final(env).host_calls@ == old(env).host_calls@,
{
    env.storage.token = Some(*token);
}

/// Read the token contract address.
pub fn get_token(env: &Env) -> (r: Option<Address>)
    ensures
        r == env.storage@.token,
{
    env.storage.token
}

/// Read the current transfer counter (zero when it was never set).
pub fn get_counter(env: &Env) -> (r: u64)
    ensures
        r == env.storage@.counter,
{
    env.storage.counter
}

/// Persist a new value for the transfer counter.
pub fn set_counter(env: &mut Env, value: u64)
    ensures
        final(env).storage@ == (StorageView { counter: value, ..old(env).storage@ }),
        final(env).storage.wf() == old(env).storage.wf(),
        final(env).kept_context(*old(env)),
        final(env).host_calls@ == old(env).host_calls@,
{
    env.storage.counter = value;
}

/// Read the paused flag (false when it was never set).
pub fn get_paused(env: &Env) -> (r: bool)
    ensures
        r == env.storage@.paused,
{
    env.storage.paused
}

/// Persist the paused flag value.
pub fn set_paused(env: &mut Env, value: bool)
    ensures
        final(env).storage@ == (StorageView { paused: value, ..old(env).storage@ }),
        final(env).storage.wf() == old(env).storage.wf(),
        final(env).kept_context(*old(env)),
        final(env).host_calls@ == old(env).host_calls@,
{
    env.storage.paused = value;
}

/// Extend the time-to-live of the instance storage entry.
pub fn extend_instance(env: &mut Env)
    ensures
        final(env).storage == old(env).storage,
        final(env).kept_context(*old(env)),
        final(env).host_calls@ == old(env).host_calls@.push(
            HostCall::ExtendInstanceTtl {
                threshold: INSTANCE_BUMP_THRESHOLD,
                extend_to: INSTANCE_BUMP_AMOUNT,
            },
        ),
{
    env.record(
        HostCall::ExtendInstanceTtl {
            threshold: INSTANCE_BUMP_THRESHOLD,
            extend_to: INSTANCE_BUMP_AMOUNT,
        },
    );
}

/// Store a transfer record keyed by its id, and extend its TTL.
pub fn set_transfer(env: &mut Env, transfer: &Transfer)
    requires
        old(env).storage.wf(),
    ensures
        final(env).storage.wf(),
        final(env).storage@ == (StorageView {
            transfers: put(old(env).storage@.transfers, *transfer),
            ..old(env).storage@
        }),
        final(env).kept_context(*old(env)),
        final(env).host_calls@ == old(env).host_calls@.push(
            HostCall::ExtendPersistentTtl {
                key: PersistentKey::Transfer(transfer.id),
                threshold: PERSISTENT_BUMP_THRESHOLD,
                extend_to: PERSISTENT_BUMP_AMOUNT,
            },
        ),
{
    let t = *transfer;
    let ghost s = env.storage.transfers@;
    proof {
        lemma_put(s, t);
    }
    let len = env.storage.transfers.len();
    let mut p: usize = 0;
    while p < len && env.storage.transfers[p].id < t.id
        invariant
            len == env.storage.transfers@.len(),
            env.storage.transfers@ == s,
            0 <= p <= len,
            forall|i: int| 0 <= i < p ==> s[i].id < t.id,
        decreases len - p,
    {
        p = p + 1;
    }
    proof {
        lemma_put_at(s, t, p as int);
    }
    if p < len && env.storage.transfers[p].id == t.id {
        env.storage.transfers.set(p, t);
    } else {
        env.storage.transfers.insert(p, t);
    }
    env.record(
        HostCall::ExtendPersistentTtl {
            key: PersistentKey::Transfer(t.id),
            threshold: PERSISTENT_BUMP_THRESHOLD,
            extend_to: PERSISTENT_BUMP_AMOUNT,
        },
    );
}

/// Read a transfer record by id, if present.
pub fn get_transfer(env: &Env, id: u64) -> (r: Option<Transfer>)
    requires
        env.storage.wf(),
    ensures
        r == env.storage@.transfer(id),
{
    let len = env.storage.transfers.len();
    let mut i: usize = 0;
    while i < len
        invariant
            env.storage.wf(),
            len == env.storage.transfers@.len(),
            0 <= i <= len,
            forall|j: int| 0 <= j < i ==> env.storage.transfers@[j].id != id,
        decreases len - i,
    {
        if env.storage.transfers[i].id == id {
            proof {
                lemma_stored_index(env.storage.transfers@, i as int);
            }
            return Some(env.storage.transfers[i]);
        }
        i = i + 1;
    }
    proof {
        lemma_stored_absent(env.storage.transfers@, id);
    }
    None
}

/// Returns true if a transfer with the given id exists.
pub fn has_transfer(env: &Env, id: u64) -> (r: bool)
    requires
        env.storage.wf(),
    ensures
        r == env.storage@.transfer(id) is Some,
{
    get_transfer(env, id).is_some()
}

/// Store a caller's allowlist status: an allowed caller is recorded and its
/// TTL extended, a disallowed one is removed.
pub fn set_caller_allowed(env: &mut Env, caller: &Address, allowed: bool)
    requires
        old(env).storage.wf(),
    ensures
        final(env).storage.wf(),
        final(env).storage@ == (StorageView {
            allowed: if allowed {
                old(env).storage@.allowed.insert(*caller)
            } else {
                old(env).storage@.allowed.remove(*caller)
            },
            ..old(env).storage@
        }),
        final(env).kept_context(*old(env)),
        final(env).host_calls@ == if allowed {
            old(env).host_calls@.push(
                HostCall::ExtendPersistentTtl {
                    key: PersistentKey::AllowedCaller(*caller),
                    threshold: PERSISTENT_BUMP_THRESHOLD,
                    extend_to: PERSISTENT_BUMP_AMOUNT,
                },
            )
        } else {
            old(env).host_calls@
        },
{
    let c = *caller;
    let ghost s = env.storage.allowed@;
    let len = env.storage.allowed.len();
    let mut i: usize = 0;
    while i < len && !env.storage.allowed[i].same_as(&c)
        invariant
            len == env.storage.allowed@.len(),
            env.storage.allowed@ == s,
            0 <= i <= len,
            forall|j: int| 0 <= j < i ==> s[j] != c,
        decreases len - i,
    {
        i = i + 1;
    }
    if allowed {
        if i == len {
            env.storage.allowed.push(c);
            proof {
                assert forall|a: int, b: int|
                    0 <= a < env.storage.allowed@.len() && 0 <= b < env.storage.allowed@.len()
                        && a != b implies env.storage.allowed@[a] != env.storage.allowed@[b] by {
                    if a < len && b < len {
                        assert(env.storage.allowed@[a] == s[a]);
                        assert(env.storage.allowed@[b] == s[b]);
                    }
                }
                assert(env.storage.allowed@.to_set() =~= s.to_set().insert(c)) by {
                    assert forall|x: Address| #[trigger]
                        env.storage.allowed@.contains(x) <==> s.contains(x) || x == c by {
                        if s.contains(x) {
                            let k = choose|k: int| 0 <= k < s.len() && s[k] == x;
                            assert(env.storage.allowed@[k] == x);
                        }
                        if env.storage.allowed@.contains(x) {
                            let k = choose|k: int|
                                0 <= k < env.storage.allowed@.len() && env.storage.allowed@[k] == x;
                            if k < len {
                                assert(s[k] == x);
                            }
                        }
                        if x == c {
                            assert(env.storage.allowed@[len as int] == c);
                        }
                    }
                }
            }
        } else {
            proof {
                assert(s.to_set().insert(c) =~= s.to_set()) by {
                    assert(s[i as int] == c);
                }
            }
        }
        env.record(
            HostCall::ExtendPersistentTtl {
                key: PersistentKey::AllowedCaller(c),
                threshold: PERSISTENT_BUMP_THRESHOLD,
                extend_to: PERSISTENT_BUMP_AMOUNT,
            },
        );
    } else {
        if i < len {
            env.storage.allowed.remove(i);
            proof {
                let r = env.storage.allowed@;
                assert(s[i as int] == c);
                assert(forall|k: int| 0 <= k < i ==> r[k] == s[k]);
                assert(forall|k: int| i <= k < r.len() ==> r[k] == s[k + 1]);
                assert forall|a: int, b: int|
                    0 <= a < r.len() && 0 <= b < r.len() && a != b implies r[a] != r[b] by {
                    let a2 = if a < i { a } else { a + 1 };
                    let b2 = if b < i { b } else { b + 1 };
                    assert(r[a] == s[a2]);
                    assert(r[b] == s[b2]);
                }
                assert(r.to_set() =~= s.to_set().remove(c)) by {
                    assert forall|x: Address| #[trigger] r.contains(x) <==> s.contains(x) && x != c by {
                        if r.contains(x) {
                            let k = choose|k: int| 0 <= k < r.len() && r[k] == x;
                            let k2 = if k < i { k } else { k + 1 };
                            assert(s[k2] == x);
                            assert(k2 != i);
                        }
                        if s.contains(x) && x != c {
                            let k = choose|k: int| 0 <= k < s.len() && s[k] == x;
                            assert(k != i);
                            if k < i {
                                assert(r[k] == x);
                            } else {
                                assert(r[k - 1] == x);
                            }
                        }
                    }
                }
            }
        } else {
            proof {
                assert(s.to_set().remove(c) =~= s.to_set()) by {
                    assert(!s.contains(c));
                }
            }
        }
    }
}

/// Check if a caller is on the allowlist.
pub fn is_caller_allowed(env: &Env, caller: &Address) -> (r: bool)
    ensures
        r == env.storage@.allowed.contains(*caller),
{
    let len = env.storage.allowed.len();
    let mut i: usize = 0;
    while i < len
        invariant
            len == env.storage.allowed@.len(),
            0 <= i <= len,
            forall|j: int| 0 <= j < i ==> env.storage.allowed@[j] != *caller,
        decreases len - i,
    {
        if env.storage.allowed[i].same_as(caller) {
            assert(env.storage.allowed@[i as int] == *caller);
            return true;
        }
        i = i + 1;
    }
    false
}

} // verus!
