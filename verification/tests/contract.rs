//! Scenarios of the escrow contract, run against a small host that checks
//! authorizations, keeps the token's balances and rolls back failed
//! invocations, as the Soroban host does.

use std::cell::RefCell;

use remitflow_contract::env::{Env, HostCall};
use remitflow_contract::error::Error;
use remitflow_contract::events::Event;
use remitflow_contract::storage::{self, InstanceKey};
use remitflow_contract::types::{
    Address, AddressKind, BatchOperation, BatchOperationResult, CancelTransferOperation,
    ClaimTransferOperation, CreateTransferOperation, Status, Transfer,
};
use remitflow_contract::{RemitFlowContract, MAX_AMOUNT, MAX_EXPIRY_WINDOW, MAX_PAGE_SIZE, MAX_TOTAL_ESCROWED};

const DEFAULT_SENDER_BALANCE: i128 = 1_000;
const DEFAULT_TRANSFER_AMOUNT: i128 = 400;
const DEFAULT_EXPIRY_OFFSET: u64 = 1_000;

/// Why the host failed an invocation.
#[derive(Debug, Clone, PartialEq)]
enum HostError {
    MissingAuth(Address),
    InsufficientBalance(Address),
}

type TryResult<T> = Result<Result<T, ()>, Result<Error, HostError>>;

/// The host: the contract's environment, the token ledger, the signers.
struct Host {
    env: Env,
    token: Option<Address>,
    balances: Vec<(Address, i128)>,
    mock_all_auths: bool,
    signers: Vec<Address>,
    events: Vec<Event>,
    next_key: u32,
}

impl Host {
    fn balance(&self, a: &Address) -> i128 {
        self.balances.iter().find(|(b, _)| b == a).map(|(_, v)| *v).unwrap_or(0)
    }

    fn set_balance(&mut self, a: &Address, v: i128) {
        match self.balances.iter_mut().find(|(b, _)| b == a) {
            Some(entry) => entry.1 = v,
            None => self.balances.push((*a, v)),
        }
    }

    fn authorized(&self, a: &Address) -> bool {
        self.mock_all_auths || self.signers.contains(a) || *a == self.env.contract_address
    }

    /// Run one invocation: replay its host calls, and roll it back when one
    /// of them fails or the contract returns an error.
    fn invoke<T>(&mut self, f: impl FnOnce(&mut Env) -> Result<T, Error>) -> TryResult<T> {
        let saved_storage = self.env.storage.snapshot();
        let saved_balances = self.balances.clone();
        let start = self.env.host_calls.len();
        let result = f(&mut self.env);
        let calls: Vec<HostCall> = self.env.host_calls[start..].to_vec();
        let mut events = Vec::new();
        for call in calls {
            let failure = match call {
                HostCall::RequireAuth(a) => {
                    if self.authorized(&a) {
                        None
                    } else {
                        Some(HostError::MissingAuth(a))
                    }
                }
                HostCall::TokenTransfer { token, from, to, amount } => {
                    assert_eq!(Some(token), self.token, "transfer of an unknown token");
                    if !self.authorized(&from) {
                        Some(HostError::MissingAuth(from))
                    } else if self.balance(&from) < amount {
                        Some(HostError::InsufficientBalance(from))
                    } else {
                        let f = self.balance(&from);
                        self.set_balance(&from, f - amount);
                        let t = self.balance(&to);
                        self.set_balance(&to, t + amount);
                        None
                    }
                }
                HostCall::Publish(e) => {
                    events.push(e);
                    None
                }
                HostCall::ExtendInstanceTtl { .. } | HostCall::ExtendPersistentTtl { .. } => None,
            };
            if let Some(err) = failure {
                self.env.storage = saved_storage;
                self.balances = saved_balances;
                return Err(Err(err));
            }
        }
        match result {
            Ok(v) => {
                self.events.extend(events);
                Ok(Ok(v))
            }
            Err(e) => {
                self.balances = saved_balances;
                Err(Ok(e))
            }
        }
    }

    fn read<T>(&self, f: impl FnOnce(&Env) -> T) -> T {
        f(&self.env)
    }
}

fn expect<T: std::fmt::Debug>(r: TryResult<T>) -> T {
    match r {
        Ok(Ok(v)) => v,
        other => panic!("invocation failed: {:?}", other),
    }
}

/// A client of the contract deployed in a host, in the manner of the
/// generated Soroban client: plain calls panic on failure, `try_` calls
/// report it.
struct Client {
    host: RefCell<Host>,
    address: Address,
}

impl Client {
    fn try_initialize(&self, admin: &Address, token: &Address) -> TryResult<()> {
        self.host.borrow_mut().invoke(|env| RemitFlowContract::initialize(env, *admin, *token))
    }
    fn initialize(&self, admin: &Address, token: &Address) {
        expect(self.try_initialize(admin, token))
    }
    fn get_admin(&self) -> Address {
        self.host.borrow().read(|env| RemitFlowContract::get_admin(env)).unwrap()
    }
    fn get_token(&self) -> Address {
        self.host.borrow().read(|env| RemitFlowContract::get_token(env)).unwrap()
    }
    fn counter(&self) -> u64 {
        self.host.borrow().read(|env| RemitFlowContract::counter(env))
    }
    fn try_pause(&self) -> TryResult<()> {
        self.host.borrow_mut().invoke(|env| RemitFlowContract::pause(env))
    }
    fn pause(&self) {
        expect(self.try_pause())
    }
    fn try_unpause(&self) -> TryResult<()> {
        self.host.borrow_mut().invoke(|env| RemitFlowContract::unpause(env))
    }
    fn unpause(&self) {
        expect(self.try_unpause())
    }
    fn is_paused(&self) -> bool {
        self.host.borrow().read(|env| RemitFlowContract::is_paused(env))
    }
    fn try_create_transfer(
        &self,
        from: &Address,
        recipient: &Address,
        amount: &i128,
        expiry: &u64,
    ) -> TryResult<u64> {
        self.host.borrow_mut().invoke(|env| {
            RemitFlowContract::create_transfer(env, *from, *recipient, *amount, *expiry)
        })
    }
    fn create_transfer(&self, from: &Address, recipient: &Address, amount: &i128, expiry: &u64) -> u64 {
        expect(self.try_create_transfer(from, recipient, amount, expiry))
    }
    fn try_claim_transfer(&self, id: &u64, recipient: &Address) -> TryResult<()> {
        self.host.borrow_mut().invoke(|env| RemitFlowContract::claim_transfer(env, *id, *recipient))
    }
    fn claim_transfer(&self, id: &u64, recipient: &Address) {
        expect(self.try_claim_transfer(id, recipient))
    }
    fn try_cancel_transfer(&self, id: &u64, from: &Address) -> TryResult<()> {
        self.host.borrow_mut().invoke(|env| RemitFlowContract::cancel_transfer(env, *id, *from))
    }
    fn cancel_transfer(&self, id: &u64, from: &Address) {
        expect(self.try_cancel_transfer(id, from))
    }
    fn try_get_transfer(&self, id: &u64) -> TryResult<Transfer> {
        match self.host.borrow().read(|env| RemitFlowContract::get_transfer(env, *id)) {
            Ok(t) => Ok(Ok(t)),
            Err(e) => Err(Ok(e)),
        }
    }
    fn get_transfer(&self, id: &u64) -> Transfer {
        expect(self.try_get_transfer(id))
    }
    fn transfer_exists(&self, id: &u64) -> bool {
        self.host.borrow().read(|env| RemitFlowContract::transfer_exists(env, *id))
    }
    fn get_status(&self, id: &u64) -> Status {
        self.host.borrow().read(|env| RemitFlowContract::get_status(env, *id)).unwrap()
    }
    fn get_transfers_paged(&self, start_id: &u64, limit: &u32) -> Vec<Transfer> {
        self.host.borrow().read(|env| RemitFlowContract::get_transfers_paged(env, *start_id, *limit))
    }
    fn total_escrowed(&self) -> i128 {
        self.host.borrow().read(|env| RemitFlowContract::total_escrowed(env))
    }
    fn is_expired(&self, id: &u64) -> bool {
        self.host.borrow().read(|env| RemitFlowContract::is_expired(env, *id)).unwrap()
    }
    fn count_for_sender(&self, from: &Address) -> u64 {
        self.host.borrow().read(|env| RemitFlowContract::count_for_sender(env, *from))
    }
    fn count_for_recipient(&self, recipient: &Address) -> u64 {
        self.host.borrow().read(|env| RemitFlowContract::count_for_recipient(env, *recipient))
    }
    fn count_by_status(&self, status: &Status) -> u64 {
        self.host.borrow().read(|env| RemitFlowContract::count_by_status(env, *status))
    }
    fn try_add_caller(&self, caller: &Address) -> TryResult<()> {
        self.host.borrow_mut().invoke(|env| RemitFlowContract::add_caller(env, *caller))
    }
    fn add_caller(&self, caller: &Address) {
        expect(self.try_add_caller(caller))
    }
    fn remove_caller(&self, caller: &Address) {
        expect(self.host.borrow_mut().invoke(|env| RemitFlowContract::remove_caller(env, *caller)))
    }
    fn is_caller_allowed(&self, caller: &Address) -> bool {
        self.host.borrow().read(|env| RemitFlowContract::is_caller_allowed(env, *caller))
    }
    fn try_transfer_admin(&self, new_admin: &Address) -> TryResult<()> {
        self.host.borrow_mut().invoke(|env| RemitFlowContract::transfer_admin(env, *new_admin))
    }
    fn transfer_admin(&self, new_admin: &Address) {
        expect(self.try_transfer_admin(new_admin))
    }
    fn try_accept_admin(&self) -> TryResult<()> {
        self.host.borrow_mut().invoke(|env| RemitFlowContract::accept_admin(env))
    }
    fn accept_admin(&self) {
        expect(self.try_accept_admin())
    }
    fn get_pending_admin(&self) -> Option<Address> {
        self.host.borrow().read(|env| RemitFlowContract::get_pending_admin(env))
    }
    fn try_batch_operations(&self, operations: &Vec<BatchOperation>) -> TryResult<Vec<BatchOperationResult>> {
        let ops = operations.clone();
        self.host.borrow_mut().invoke(|env| RemitFlowContract::batch_operations(env, ops))
    }
    fn batch_operations(&self, operations: &Vec<BatchOperation>) -> Vec<BatchOperationResult> {
        expect(self.try_batch_operations(operations))
    }
}

fn key_of(n: u32) -> [u8; 32] {
    let mut key = [0u8; 32];
    key[28..].copy_from_slice(&n.to_be_bytes());
    key
}

impl Client {
    /// A fresh host with the contract deployed, but not initialized.
    fn deploy(mock_all_auths: bool) -> Self {
        let address = Address { kind: AddressKind::Contract, key: key_of(0xC0FF_EE00) };
        let host = Host {
            env: Env::new(address, 0),
            token: None,
            balances: Vec::new(),
            mock_all_auths,
            signers: Vec::new(),
            events: Vec::new(),
            next_key: 1,
        };
        Client { host: RefCell::new(host), address }
    }

    fn fresh_key(&self) -> [u8; 32] {
        let mut host = self.host.borrow_mut();
        let n = host.next_key;
        host.next_key += 1;
        key_of(n)
    }

    /// A new account address.
    fn generate(&self) -> Address {
        Address { kind: AddressKind::Account, key: self.fresh_key() }
    }

    /// Deploy the token contract that the host keeps balances of.
    fn create_token(&self) -> Address {
        let token = Address { kind: AddressKind::Contract, key: self.fresh_key() };
        self.host.borrow_mut().token = Some(token);
        token
    }

    fn mint(&self, to: &Address, amount: i128) {
        let mut host = self.host.borrow_mut();
        let v = host.balance(to);
        host.set_balance(to, v + amount);
    }

    fn balance(&self, of: &Address) -> i128 {
        self.host.borrow().balance(of)
    }

    fn timestamp(&self) -> u64 {
        self.host.borrow().env.ledger_timestamp
    }

    fn set_timestamp(&self, t: u64) {
        self.host.borrow_mut().env.ledger_timestamp = t;
    }

    fn sign(&self, a: &Address) {
        self.host.borrow_mut().signers.push(*a);
    }

    fn with_env(&self, f: impl FnOnce(&mut Env)) {
        f(&mut self.host.borrow_mut().env)
    }

    fn events(&self) -> Vec<Event> {
        self.host.borrow().events.clone()
    }
}

/// The common fixture: an initialized contract, its token, an admin, a
/// funded and allowlisted sender, and a recipient.
struct TestFixture {
    client: Client,
    token: Address,
    admin: Address,
    from: Address,
    recipient: Address,
}

impl TestFixture {
    fn new() -> Self {
        let client = Client::deploy(true);
        let admin = client.generate();
        let from = client.generate();
        let recipient = client.generate();
        let token = client.create_token();
        client.mint(&from, DEFAULT_SENDER_BALANCE);
        client.initialize(&admin, &token);
        client.add_caller(&from);
        TestFixture { client, token, admin, from, recipient }
    }

    fn generate(&self) -> Address {
        self.client.generate()
    }

    fn mint(&self, to: &Address, amount: i128) {
        self.client.mint(to, amount)
    }

    fn balance(&self, of: &Address) -> i128 {
        self.client.balance(of)
    }

    fn timestamp(&self) -> u64 {
        self.client.timestamp()
    }

    fn set_timestamp(&self, t: u64) {
        self.client.set_timestamp(t)
    }

    fn future_expiry(&self) -> u64 {
        self.timestamp() + DEFAULT_EXPIRY_OFFSET
    }

    fn create_default_transfer(&self) -> u64 {
        self.client.create_transfer(
            &self.from,
            &self.recipient,
            &DEFAULT_TRANSFER_AMOUNT,
            &self.future_expiry(),
        )
    }
}

fn setup() -> TestFixture {
    TestFixture::new()
}

#[test]
fn test_batch_operations_executes_successful_batch_in_order() {
    let s = setup();
    let expiry = s.future_expiry();
    let operations = vec![
        BatchOperation::Create(CreateTransferOperation {
            from: s.from,
            recipient: s.recipient,
            amount: 300,
            expiry,
        }),
        BatchOperation::Create(CreateTransferOperation {
            from: s.from,
            recipient: s.recipient,
            amount: 200,
            expiry,
        }),
        BatchOperation::Claim(ClaimTransferOperation { id: 1, recipient: s.recipient }),
    ];

    let results = s.client.batch_operations(&operations);

    assert_eq!(
        results,
        vec![
            BatchOperationResult::Created(1),
            BatchOperationResult::Created(2),
            BatchOperationResult::Claimed,
        ]
    );
    assert_eq!(s.client.counter(), 2);
    assert_eq!(s.client.get_status(&1), Status::Claimed);
    assert_eq!(s.client.get_status(&2), Status::Pending);
    assert_eq!(s.balance(&s.from), 500);
    assert_eq!(s.balance(&s.recipient), 300);
    assert_eq!(s.balance(&s.client.address), 200);
}

#[test]
fn test_batch_operations_rolls_back_on_partial_failure() {
    let s = setup();
    let expiry = s.future_expiry();
    let operations = vec![
        BatchOperation::Create(CreateTransferOperation {
            from: s.from,
            recipient: s.recipient,
            amount: 300,
            expiry,
        }),
        BatchOperation::Create(CreateTransferOperation {
            from: s.from,
            recipient: s.from,
            amount: 200,
            expiry,
        }),
    ];

    let result = s.client.try_batch_operations(&operations);

    assert_eq!(result, Err(Ok(Error::SameParty)));
    assert_eq!(s.client.counter(), 0);
    assert!(!s.client.transfer_exists(&1));
    assert_eq!(s.balance(&s.from), DEFAULT_SENDER_BALANCE);
    assert_eq!(s.balance(&s.client.address), 0);
}

#[test]
fn test_initialize_sets_admin_and_token() {
    let s = setup();
    assert_eq!(s.client.get_admin(), s.admin);
    assert_eq!(s.client.get_token(), s.token);
    assert_eq!(s.client.counter(), 0);
}

#[test]
fn test_common_setup_initializes_and_funds_contract() {
    let s = setup();

    assert_eq!(s.client.get_admin(), s.admin);
    assert_eq!(s.client.get_token(), s.token);
    assert_eq!(s.balance(&s.from), DEFAULT_SENDER_BALANCE);
    assert_eq!(s.balance(&s.client.address), 0);
}

#[test]
fn test_initialize_twice_fails() {
    let s = setup();
    let res = s.client.try_initialize(&s.admin, &s.token);
    assert_eq!(res, Err(Ok(Error::AlreadyInitialized)));
}

#[test]
fn test_create_transfer_moves_funds_to_escrow() {
    let s = setup();

    let id = s.create_default_transfer();

    assert_eq!(id, 1);
    assert_eq!(s.client.counter(), 1);
    assert_eq!(s.balance(&s.from), DEFAULT_SENDER_BALANCE - DEFAULT_TRANSFER_AMOUNT);
    assert_eq!(s.balance(&s.client.address), DEFAULT_TRANSFER_AMOUNT);

    let transfer = s.client.get_transfer(&id);
    assert_eq!(transfer.amount, DEFAULT_TRANSFER_AMOUNT);
    assert_eq!(transfer.status, Status::Pending);
    assert_eq!(transfer.recipient, s.recipient);
}

#[test]
fn test_create_transfer_rejects_non_positive_amount() {
    let s = setup();
    let expiry = s.future_expiry();
    let res = s.client.try_create_transfer(&s.from, &s.recipient, &0, &expiry);
    assert_eq!(res, Err(Ok(Error::InvalidAmount)));
}

#[test]
fn test_create_transfer_rejects_past_expiry() {
    let s = setup();
    s.set_timestamp(5_000);
    let res = s.client.try_create_transfer(&s.from, &s.recipient, &100, &1_000);
    assert_eq!(res, Err(Ok(Error::InvalidExpiry)));
}

#[test]
fn test_claim_transfer_pays_recipient() {
    let s = setup();
    let id = s.create_default_transfer();

    s.client.claim_transfer(&id, &s.recipient);

    assert_eq!(s.balance(&s.recipient), DEFAULT_TRANSFER_AMOUNT);
    assert_eq!(s.balance(&s.client.address), 0);
    assert_eq!(s.client.get_transfer(&id).status, Status::Claimed);
}

#[test]
fn test_claim_transfer_wrong_recipient_fails() {
    let s = setup();
    let stranger = s.generate();
    let expiry = s.timestamp() + 1_000;
    let id = s.client.create_transfer(&s.from, &s.recipient, &400, &expiry);

    let res = s.client.try_claim_transfer(&id, &stranger);
    assert_eq!(res, Err(Ok(Error::Unauthorized)));
}

#[test]
fn test_claim_after_expiry_fails() {
    let s = setup();
    let expiry = s.timestamp() + 1_000;
    let id = s.client.create_transfer(&s.from, &s.recipient, &400, &expiry);

    s.set_timestamp(expiry + 1);
    let res = s.client.try_claim_transfer(&id, &s.recipient);
    assert_eq!(res, Err(Ok(Error::Expired)));
}

#[test]
fn test_cancel_after_expiry_refunds_sender() {
    let s = setup();
    let expiry = s.future_expiry();
    let id = s.create_default_transfer();

    s.set_timestamp(expiry + 1);
    s.client.cancel_transfer(&id, &s.from);

    assert_eq!(s.balance(&s.from), DEFAULT_SENDER_BALANCE);
    assert_eq!(s.balance(&s.client.address), 0);
    assert_eq!(s.client.get_transfer(&id).status, Status::Cancelled);
}

#[test]
fn test_cancel_before_expiry_fails() {
    let s = setup();
    let expiry = s.timestamp() + 1_000;
    let id = s.client.create_transfer(&s.from, &s.recipient, &400, &expiry);

    let res = s.client.try_cancel_transfer(&id, &s.from);
    assert_eq!(res, Err(Ok(Error::NotExpired)));
}

#[test]
fn test_cancel_by_non_sender_fails() {
    let s = setup();
    let stranger = s.generate();
    let expiry = s.timestamp() + 1_000;
    let id = s.client.create_transfer(&s.from, &s.recipient, &400, &expiry);

    s.set_timestamp(expiry + 1);
    let res = s.client.try_cancel_transfer(&id, &stranger);
    assert_eq!(res, Err(Ok(Error::Unauthorized)));
}

#[test]
fn test_claim_twice_fails() {
    let s = setup();
    let expiry = s.timestamp() + 1_000;
    let id = s.client.create_transfer(&s.from, &s.recipient, &400, &expiry);

    s.client.claim_transfer(&id, &s.recipient);
    let res = s.client.try_claim_transfer(&id, &s.recipient);
    assert_eq!(res, Err(Ok(Error::NotPending)));
}

#[test]
fn test_get_unknown_transfer_fails() {
    let s = setup();
    let res = s.client.try_get_transfer(&999);
    assert_eq!(res, Err(Ok(Error::TransferNotFound)));
}

#[test]
fn test_counter_increments_across_transfers() {
    let s = setup();
    let expiry = s.timestamp() + 1_000;
    let id1 = s.client.create_transfer(&s.from, &s.recipient, &100, &expiry);
    let id2 = s.client.create_transfer(&s.from, &s.recipient, &100, &expiry);

    assert_eq!(id1, 1);
    assert_eq!(id2, 2);
    assert_eq!(s.client.counter(), 2);
}

#[test]
fn test_create_transfer_rejects_self_transfer() {
    let s = setup();
    let expiry = s.timestamp() + 1_000;
    let res = s.client.try_create_transfer(&s.from, &s.from, &100, &expiry);
    assert_eq!(res, Err(Ok(Error::SameParty)));
}

#[test]
fn test_create_transfer_rejects_oversized_amount() {
    let s = setup();
    let expiry = s.timestamp() + 1_000;
    let amount = MAX_AMOUNT + 1;
    let res = s.client.try_create_transfer(&s.from, &s.recipient, &amount, &expiry);
    assert_eq!(res, Err(Ok(Error::AmountTooLarge)));
}

#[test]
fn test_create_transfer_rejects_far_future_expiry() {
    let s = setup();
    let expiry = s.timestamp() + MAX_EXPIRY_WINDOW + 1;
    let res = s.client.try_create_transfer(&s.from, &s.recipient, &100, &expiry);
    assert_eq!(res, Err(Ok(Error::ExpiryTooFar)));
}

#[test]
fn test_total_escrowed_tracks_pending_amounts() {
    let s = setup();
    let expiry = s.timestamp() + 1_000;

    assert_eq!(s.client.total_escrowed(), 0);

    let id1 = s.client.create_transfer(&s.from, &s.recipient, &300, &expiry);
    s.client.create_transfer(&s.from, &s.recipient, &200, &expiry);
    assert_eq!(s.client.total_escrowed(), 500);

    s.client.claim_transfer(&id1, &s.recipient);
    assert_eq!(s.client.total_escrowed(), 200);
}

#[test]
fn test_count_for_sender_and_recipient() {
    let s = setup();
    let other = s.generate();
    let expiry = s.timestamp() + 1_000;

    s.client.create_transfer(&s.from, &s.recipient, &100, &expiry);
    s.client.create_transfer(&s.from, &other, &100, &expiry);

    assert_eq!(s.client.count_for_sender(&s.from), 2);
    assert_eq!(s.client.count_for_sender(&other), 0);
    assert_eq!(s.client.count_for_recipient(&s.recipient), 1);
    assert_eq!(s.client.count_for_recipient(&other), 1);
}

#[test]
fn test_get_transfers_paged_respects_limit_and_start() {
    let s = setup();
    let expiry = s.timestamp() + 1_000;
    for _ in 0..3 {
        s.client.create_transfer(&s.from, &s.recipient, &100, &expiry);
    }

    let first = s.client.get_transfers_paged(&1, &2);
    assert_eq!(first.len(), 2);
    assert_eq!(first.get(0).unwrap().id, 1);
    assert_eq!(first.get(1).unwrap().id, 2);

    let second = s.client.get_transfers_paged(&3, &2);
    assert_eq!(second.len(), 1);
    assert_eq!(second.get(0).unwrap().id, 3);

    let empty = s.client.get_transfers_paged(&1, &0);
    assert_eq!(empty.len(), 0);
}

#[test]
fn test_get_transfers_paged_caps_oversized_limit() {
    let s = setup();
    let expiry = s.future_expiry();
    for _ in 0..=MAX_PAGE_SIZE {
        s.client.create_transfer(&s.from, &s.recipient, &1, &expiry);
    }

    let page = s.client.get_transfers_paged(&1, &u32::MAX);

    assert_eq!(page.len(), MAX_PAGE_SIZE as usize);
    assert_eq!(page.get(0).unwrap().id, 1);
    assert_eq!(
        page.get(MAX_PAGE_SIZE as usize - 1).unwrap().id,
        u64::from(MAX_PAGE_SIZE)
    );
}

#[test]
fn test_get_transfers_paged_empty_contract_returns_empty_page() {
    let s = setup();
    assert_eq!(s.client.get_transfers_paged(&1, &10).len(), 0);
}

#[test]
fn test_is_expired_reflects_ledger_time() {
    let s = setup();
    let expiry = s.timestamp() + 1_000;
    let id = s.client.create_transfer(&s.from, &s.recipient, &100, &expiry);

    assert!(!s.client.is_expired(&id));

    s.set_timestamp(expiry + 1);
    assert!(s.client.is_expired(&id));
}

#[test]
fn test_pause_blocks_create_transfer() {
    let s = setup();
    let expiry = s.timestamp() + 1_000;

    assert!(!s.client.is_paused());
    s.client.pause();
    assert!(s.client.is_paused());

    let res = s.client.try_create_transfer(&s.from, &s.recipient, &100, &expiry);
    assert_eq!(res, Err(Ok(Error::ContractPaused)));

    s.client.unpause();
    assert!(!s.client.is_paused());
    let id = s.client.create_transfer(&s.from, &s.recipient, &100, &expiry);
    assert_eq!(id, 1);
}

#[test]
fn test_count_by_status_tracks_lifecycle() {
    let s = setup();
    let expiry = s.timestamp() + 1_000;
    let id1 = s.client.create_transfer(&s.from, &s.recipient, &100, &expiry);
    let _id2 = s.client.create_transfer(&s.from, &s.recipient, &100, &expiry);

    assert_eq!(s.client.count_by_status(&Status::Pending), 2);
    assert_eq!(s.client.count_by_status(&Status::Claimed), 0);

    s.client.claim_transfer(&id1, &s.recipient);

    assert_eq!(s.client.count_by_status(&Status::Pending), 1);
    assert_eq!(s.client.count_by_status(&Status::Claimed), 1);
}

#[test]
fn test_allowlist_gating() {
    let s = setup();
    let stranger = s.generate();
    let expiry = s.timestamp() + 1_000;

    // stranger is not allowed initially
    assert!(!s.client.is_caller_allowed(&stranger));

    let res = s.client.try_create_transfer(&stranger, &s.recipient, &100, &expiry);
    assert_eq!(res, Err(Ok(Error::CallerNotAllowed)));

    // add stranger to allowlist
    s.client.add_caller(&stranger);
    assert!(s.client.is_caller_allowed(&stranger));

    // stranger should now be able to create transfer
    s.mint(&stranger, 1_000);

    let id = s.client.create_transfer(&stranger, &s.recipient, &100, &expiry);
    assert_eq!(id, 1);

    // remove stranger from allowlist
    s.client.remove_caller(&stranger);
    assert!(!s.client.is_caller_allowed(&stranger));

    // stranger should be blocked again
    let res2 = s.client.try_create_transfer(&stranger, &s.recipient, &100, &expiry);
    assert_eq!(res2, Err(Ok(Error::CallerNotAllowed)));
}

#[test]
fn test_initialize_requires_admin_auth() {
    let client = Client::deploy(false);
    let admin = client.generate();
    let token = client.create_token();

    // Initialize without any authorization - admin.require_auth() does not pass
    let res = client.try_initialize(&admin, &token);
    assert!(res.is_err());
}

#[test]
fn test_pause_by_admin_succeeds() {
    let s = setup();

    assert!(!s.client.is_paused());
    s.client.pause();
    assert!(s.client.is_paused());
}

#[test]
fn test_unpause_by_admin_succeeds() {
    let s = setup();

    s.client.pause();
    assert!(s.client.is_paused());

    s.client.unpause();
    assert!(!s.client.is_paused());
}

#[test]
fn test_initialize_by_admin_succeeds() {
    let s = setup();
    assert_eq!(s.client.get_admin(), s.admin);
    assert_eq!(s.client.get_token(), s.token);
}

#[test]
fn test_non_admin_cannot_pause_twice() {
    let s = setup();

    // First pause by admin
    s.client.pause();
    assert!(s.client.is_paused());

    // Pausing again by the admin succeeds as well
    s.client.pause();
    assert!(s.client.is_paused());
}

#[test]
fn test_pause_and_unpause_state_changes() {
    let s = setup();
    let expiry = s.timestamp() + 1_000;

    // Initially not paused
    assert!(!s.client.is_paused());

    // Pause and verify
    s.client.pause();
    assert!(s.client.is_paused());

    // Verify transfers are blocked while paused
    let res = s.client.try_create_transfer(&s.from, &s.recipient, &100, &expiry);
    assert_eq!(res, Err(Ok(Error::ContractPaused)));

    // Unpause and verify
    s.client.unpause();
    assert!(!s.client.is_paused());

    // Verify transfers work again
    let id = s.client.create_transfer(&s.from, &s.recipient, &100, &expiry);
    assert_eq!(id, 1);
}

#[test]
fn test_admin_guard_on_pause_with_mock_all_auths() {
    let s = setup();

    assert!(!s.client.is_paused());
    s.client.pause();
    assert!(s.client.is_paused());
    s.client.unpause();
    assert!(!s.client.is_paused());
}

#[test]
fn test_initialize_only_once_enforces_admin_guard() {
    let s = setup();

    // First initialization passed (already done in setup)
    assert_eq!(s.client.get_admin(), s.admin);

    // Second attempt should fail
    let res = s.client.try_initialize(&s.admin, &s.token);
    assert_eq!(res, Err(Ok(Error::AlreadyInitialized)));
}

#[test]
fn test_admin_operations_require_initialization() {
    let client = Client::deploy(true);
    let _admin = client.generate();
    let _token = client.create_token();

    // Attempting admin operations before initialization should fail
    let res = client.try_pause();
    assert_eq!(res, Err(Ok(Error::NotInitialized)));

    let res = client.try_unpause();
    assert_eq!(res, Err(Ok(Error::NotInitialized)));
}

#[test]
fn test_max_amount_boundary_accepted() {
    let s = setup();
    let expiry = s.timestamp() + 1_000;
    s.mint(&s.from, MAX_AMOUNT);

    let id = s.client.create_transfer(&s.from, &s.recipient, &MAX_AMOUNT, &expiry);
    assert_eq!(s.client.get_transfer(&id).amount, MAX_AMOUNT);
}

#[test]
fn test_max_amount_plus_one_rejected() {
    let s = setup();
    let expiry = s.timestamp() + 1_000;
    let res = s.client.try_create_transfer(&s.from, &s.recipient, &(MAX_AMOUNT + 1), &expiry);
    assert_eq!(res, Err(Ok(Error::AmountTooLarge)));
}

#[test]
fn test_i128_max_rejected() {
    let s = setup();
    let expiry = s.timestamp() + 1_000;
    let res = s.client.try_create_transfer(&s.from, &s.recipient, &i128::MAX, &expiry);
    assert_eq!(res, Err(Ok(Error::AmountTooLarge)));
}

#[test]
fn test_zero_amount_rejected() {
    let s = setup();
    let expiry = s.timestamp() + 1_000;
    let res = s.client.try_create_transfer(&s.from, &s.recipient, &0, &expiry);
    assert_eq!(res, Err(Ok(Error::InvalidAmount)));
}

#[test]
fn test_negative_amount_rejected() {
    let s = setup();
    let expiry = s.timestamp() + 1_000;
    let res = s.client.try_create_transfer(&s.from, &s.recipient, &-1, &expiry);
    assert_eq!(res, Err(Ok(Error::InvalidAmount)));
}

#[test]
fn test_max_expiry_window_accepted() {
    let s = setup();
    let now = s.timestamp();
    let expiry = now + MAX_EXPIRY_WINDOW;
    let id = s.client.create_transfer(&s.from, &s.recipient, &100, &expiry);
    assert_eq!(s.client.get_transfer(&id).expiry, expiry);
}

#[test]
fn test_max_expiry_window_plus_one_rejected() {
    let s = setup();
    let now = s.timestamp();
    let expiry = now + MAX_EXPIRY_WINDOW + 1;
    let res = s.client.try_create_transfer(&s.from, &s.recipient, &100, &expiry);
    assert_eq!(res, Err(Ok(Error::ExpiryTooFar)));
}

#[test]
fn test_expiry_at_now_rejected() {
    let s = setup();
    let now = s.timestamp();
    let res = s.client.try_create_transfer(&s.from, &s.recipient, &100, &now);
    assert_eq!(res, Err(Ok(Error::InvalidExpiry)));
}

#[test]
fn test_expiry_one_second_accepted() {
    let s = setup();
    let expiry = s.timestamp() + 1;
    let id = s.client.create_transfer(&s.from, &s.recipient, &100, &expiry);
    assert_eq!(s.client.get_transfer(&id).expiry, expiry);
}

#[test]
fn test_counter_at_u64_max_minus_one() {
    let s = setup();
    let expiry = s.timestamp() + 1_000;
    // Simulate counter at u64::MAX - 1
    s.client.with_env(|env| storage::set_counter(env, u64::MAX - 1));
    let id = s.client.create_transfer(&s.from, &s.recipient, &100, &expiry);
    assert_eq!(id, u64::MAX);
}

#[test]
fn test_counter_at_u64_max_overflows() {
    let s = setup();
    let expiry = s.timestamp() + 1_000;
    s.client.with_env(|env| storage::set_counter(env, u64::MAX));
    let res = s.client.try_create_transfer(&s.from, &s.recipient, &100, &expiry);
    assert_eq!(res, Err(Ok(Error::CounterOverflow)));
}

#[test]
fn test_total_escrowed_with_max_amount() {
    let s = setup();
    s.mint(&s.from, MAX_AMOUNT);
    let expiry = s.timestamp() + 1_000;
    s.client.create_transfer(&s.from, &s.recipient, &MAX_AMOUNT, &expiry);
    assert_eq!(s.client.total_escrowed(), MAX_AMOUNT);
}

#[test]
fn test_get_transfers_paged_beyond_counter() {
    let s = setup();
    let page = s.client.get_transfers_paged(&100, &5);
    assert_eq!(page.len(), 0);
}

#[test]
fn test_get_transfers_paged_start_at_zero_clamped_to_one() {
    let s = setup();
    let expiry = s.timestamp() + 1_000;
    s.client.create_transfer(&s.from, &s.recipient, &100, &expiry);
    let page = s.client.get_transfers_paged(&0, &5);
    assert_eq!(page.len(), 1);
    assert_eq!(page.get(0).unwrap().id, 1);
}

// --- Two-step admin ownership transfer tests ---

#[test]
fn test_transfer_admin_sets_pending_admin() {
    let s = setup();
    let new_admin = s.generate();

    // Before nomination no pending admin exists
    assert!(s.client.get_pending_admin().is_none());

    s.client.transfer_admin(&new_admin);

    assert_eq!(s.client.get_pending_admin(), Some(new_admin));
    // Current admin unchanged
    assert_eq!(s.client.get_admin(), s.admin);
}

#[test]
fn test_accept_admin_completes_transfer() {
    let s = setup();
    let new_admin = s.generate();

    s.client.transfer_admin(&new_admin);
    s.client.accept_admin();

    // Admin slot now holds the new admin
    assert_eq!(s.client.get_admin(), new_admin);
    // Pending slot cleared
    assert!(s.client.get_pending_admin().is_none());
}

#[test]
fn test_accept_admin_without_pending_fails() {
    let s = setup();

    let res = s.client.try_accept_admin();
    assert_eq!(res, Err(Ok(Error::NoPendingAdmin)));
}

#[test]
fn test_new_admin_can_exercise_admin_rights_after_transfer() {
    let s = setup();
    let new_admin = s.generate();

    s.client.transfer_admin(&new_admin);
    s.client.accept_admin();

    // New admin should be able to pause the contract
    assert_eq!(s.client.get_admin(), new_admin);
    s.client.pause();
    assert!(s.client.is_paused());
}

#[test]
fn test_old_admin_cannot_exercise_admin_rights_after_transfer() {
    let client = Client::deploy(true);

    let old_admin = client.generate();
    let new_admin = client.generate();

    let token = client.create_token();

    client.initialize(&old_admin, &token);

    // Perform the full two-step handover
    client.transfer_admin(&new_admin);
    client.accept_admin();

    // The admin slot must reflect the change
    assert_eq!(client.get_admin(), new_admin);

    // The simplest observable proof is that get_admin no longer returns old_admin.
    assert_ne!(client.get_admin(), old_admin);
}

#[test]
fn test_transfer_admin_overrides_previous_pending() {
    let s = setup();
    let first_nominee = s.generate();
    let second_nominee = s.generate();

    s.client.transfer_admin(&first_nominee);
    assert_eq!(s.client.get_pending_admin(), Some(first_nominee));

    // Second nomination replaces the first
    s.client.transfer_admin(&second_nominee);
    assert_eq!(s.client.get_pending_admin(), Some(second_nominee));

    // Accepting makes second_nominee the admin
    s.client.accept_admin();
    assert_eq!(s.client.get_admin(), second_nominee);
    assert!(s.client.get_pending_admin().is_none());
}

// --- Storage-key collision safety tests ---

#[test]
fn test_instance_key_variants_are_distinct() {
    assert_ne!(InstanceKey::Admin, InstanceKey::PendingAdmin);
    assert_ne!(InstanceKey::Admin, InstanceKey::Token);
    assert_ne!(InstanceKey::Admin, InstanceKey::Counter);
    assert_ne!(InstanceKey::Admin, InstanceKey::Paused);
    assert_ne!(InstanceKey::PendingAdmin, InstanceKey::Token);
    assert_ne!(InstanceKey::PendingAdmin, InstanceKey::Counter);
    assert_ne!(InstanceKey::PendingAdmin, InstanceKey::Paused);
    assert_ne!(InstanceKey::Token, InstanceKey::Counter);
    assert_ne!(InstanceKey::Token, InstanceKey::Paused);
    assert_ne!(InstanceKey::Counter, InstanceKey::Paused);
}

#[test]
fn test_persistent_transfer_keys_are_unique_per_id() {
    let s = setup();
    let expiry = s.future_expiry();

    let id1 = s.client.create_transfer(&s.from, &s.recipient, &100, &expiry);
    let id2 = s.client.create_transfer(&s.from, &s.recipient, &200, &expiry);

    assert_ne!(id1, id2);
    let t1 = s.client.get_transfer(&id1);
    let t2 = s.client.get_transfer(&id2);
    assert_eq!(t1.amount, 100);
    assert_eq!(t2.amount, 200);
    // Mutating one record does not affect the other
    s.client.claim_transfer(&id1, &s.recipient);
    assert_eq!(s.client.get_status(&id1), Status::Claimed);
    assert_eq!(s.client.get_status(&id2), Status::Pending);
}

#[test]
fn test_persistent_allowedcaller_keys_are_unique_per_address() {
    let s = setup();
    let addr_a = s.generate();
    let addr_b = s.generate();

    // Neither is allowed initially
    assert!(!s.client.is_caller_allowed(&addr_a));
    assert!(!s.client.is_caller_allowed(&addr_b));

    // Allow addr_a only
    s.client.add_caller(&addr_a);
    assert!(s.client.is_caller_allowed(&addr_a));
    assert!(!s.client.is_caller_allowed(&addr_b));

    // Allow addr_b; addr_a remains allowed
    s.client.add_caller(&addr_b);
    assert!(s.client.is_caller_allowed(&addr_a));
    assert!(s.client.is_caller_allowed(&addr_b));

    // Remove addr_a; addr_b must remain allowed
    s.client.remove_caller(&addr_a);
    assert!(!s.client.is_caller_allowed(&addr_a));
    assert!(s.client.is_caller_allowed(&addr_b));
}

#[test]
fn test_allowedcaller_and_transfer_keys_do_not_collide() {
    let s = setup();
    let expiry = s.future_expiry();

    // Create a transfer (id = 1)
    let id = s.client.create_transfer(&s.from, &s.recipient, &300, &expiry);
    assert_eq!(id, 1);

    // Add a fresh caller to the allowlist
    let extra_caller = s.generate();
    s.client.add_caller(&extra_caller);

    // Transfer record is unchanged
    let transfer = s.client.get_transfer(&id);
    assert_eq!(transfer.amount, 300);
    assert_eq!(transfer.status, Status::Pending);

    // Allowlist entry is present
    assert!(s.client.is_caller_allowed(&extra_caller));

    // Claiming the transfer does not disturb the allowlist
    s.client.claim_transfer(&id, &s.recipient);
    assert!(s.client.is_caller_allowed(&extra_caller));
}

// --- Further scenarios ---

#[test]
fn escrow_cap_refuses_a_transfer_that_would_exceed_it() {
    let s = setup();
    let expiry = s.timestamp() + 1_000;
    s.mint(&s.from, MAX_TOTAL_ESCROWED);

    let first = s.client.create_transfer(&s.from, &s.recipient, &MAX_TOTAL_ESCROWED, &expiry);
    assert_eq!(first, 1);

    let res = s.client.try_create_transfer(&s.from, &s.recipient, &1, &expiry);
    assert_eq!(res, Err(Ok(Error::EscrowCapReached)));

    // Releasing the escrow makes room again.
    s.client.claim_transfer(&first, &s.recipient);
    let second = s.client.create_transfer(&s.from, &s.recipient, &1, &expiry);
    assert_eq!(second, 2);
}

#[test]
fn total_escrowed_saturates_on_oversized_records() {
    let s = setup();
    let expiry = s.timestamp() + 1_000;
    s.client.with_env(|env| {
        storage::set_counter(env, 2);
        for id in 1..=2u64 {
            let t = Transfer {
                id,
                from: s.from,
                recipient: s.recipient,
                amount: i128::MAX / 2 + 1,
                expiry,
                status: Status::Pending,
            };
            storage::set_transfer(env, &t);
        }
    });
    assert_eq!(s.client.total_escrowed(), i128::MAX);
    // The saturated total leaves no room for another transfer.
    let res = s.client.try_create_transfer(&s.from, &s.recipient, &1, &expiry);
    assert_eq!(res, Err(Ok(Error::AmountTooLarge)));
}

#[test]
fn records_above_the_counter_are_not_counted() {
    let s = setup();
    let expiry = s.timestamp() + 1_000;
    s.client.create_transfer(&s.from, &s.recipient, &100, &expiry);
    s.client.create_transfer(&s.from, &s.recipient, &200, &expiry);
    s.client.with_env(|env| storage::set_counter(env, 1));
    assert_eq!(s.client.total_escrowed(), 100);
    assert_eq!(s.client.count_for_sender(&s.from), 1);
    assert_eq!(s.client.get_transfers_paged(&1, &10).len(), 1);
    // The record itself is still there.
    assert!(s.client.transfer_exists(&2));
}

#[test]
fn cancel_after_claim_fails_and_claim_after_cancel_fails() {
    let s = setup();
    let expiry = s.timestamp() + 1_000;
    let a = s.client.create_transfer(&s.from, &s.recipient, &100, &expiry);
    let b = s.client.create_transfer(&s.from, &s.recipient, &100, &expiry);
    s.client.claim_transfer(&a, &s.recipient);
    s.set_timestamp(expiry + 1);
    assert_eq!(s.client.try_cancel_transfer(&a, &s.from), Err(Ok(Error::NotPending)));
    s.client.cancel_transfer(&b, &s.from);
    s.set_timestamp(expiry);
    assert_eq!(s.client.try_claim_transfer(&b, &s.recipient), Err(Ok(Error::NotPending)));
    assert_eq!(s.balance(&s.recipient), 100);
    assert_eq!(s.balance(&s.from), DEFAULT_SENDER_BALANCE - 100);
    assert_eq!(s.balance(&s.client.address), 0);
}

#[test]
fn claim_at_the_expiry_instant_succeeds_and_cancel_needs_one_more_second() {
    let s = setup();
    let expiry = s.timestamp() + 1_000;
    let a = s.client.create_transfer(&s.from, &s.recipient, &100, &expiry);
    s.set_timestamp(expiry);
    assert_eq!(s.client.try_cancel_transfer(&a, &s.from), Err(Ok(Error::NotExpired)));
    assert!(!s.client.is_expired(&a));
    s.client.claim_transfer(&a, &s.recipient);
    assert_eq!(s.client.get_status(&a), Status::Claimed);
}

#[test]
fn paused_contract_still_settles_existing_transfers() {
    let s = setup();
    let expiry = s.timestamp() + 1_000;
    let a = s.client.create_transfer(&s.from, &s.recipient, &100, &expiry);
    let b = s.client.create_transfer(&s.from, &s.recipient, &100, &expiry);
    s.client.pause();
    s.client.claim_transfer(&a, &s.recipient);
    s.set_timestamp(expiry + 1);
    s.client.cancel_transfer(&b, &s.from);
    assert_eq!(s.client.count_by_status(&Status::Claimed), 1);
    assert_eq!(s.client.count_by_status(&Status::Cancelled), 1);
}

#[test]
fn contract_balance_follows_total_escrowed() {
    let s = setup();
    let expiry = s.timestamp() + 1_000;
    let a = s.client.create_transfer(&s.from, &s.recipient, &150, &expiry);
    assert_eq!(s.balance(&s.client.address), s.client.total_escrowed());
    let b = s.client.create_transfer(&s.from, &s.recipient, &250, &expiry);
    assert_eq!(s.balance(&s.client.address), s.client.total_escrowed());
    s.client.claim_transfer(&a, &s.recipient);
    assert_eq!(s.balance(&s.client.address), s.client.total_escrowed());
    s.set_timestamp(expiry + 1);
    s.client.cancel_transfer(&b, &s.from);
    assert_eq!(s.balance(&s.client.address), s.client.total_escrowed());
    assert_eq!(s.client.total_escrowed(), 0);
}

#[test]
fn insufficient_sender_balance_fails_and_rolls_back() {
    let s = setup();
    let expiry = s.timestamp() + 1_000;
    let res = s.client.try_create_transfer(&s.from, &s.recipient, &(DEFAULT_SENDER_BALANCE + 1), &expiry);
    assert_eq!(res, Err(Err(HostError::InsufficientBalance(s.from))));
    assert_eq!(s.client.counter(), 0);
    assert!(!s.client.transfer_exists(&1));
}

#[test]
fn batch_cancel_and_claim_report_results_in_order() {
    let s = setup();
    let expiry = s.timestamp() + 1_000;
    let a = s.client.create_transfer(&s.from, &s.recipient, &100, &expiry);
    s.set_timestamp(expiry + 1);
    let ops = vec![
        BatchOperation::Cancel(CancelTransferOperation { id: a, from: s.from }),
        BatchOperation::Create(CreateTransferOperation {
            from: s.from,
            recipient: s.recipient,
            amount: 50,
            expiry: expiry + 10,
        }),
        BatchOperation::Claim(ClaimTransferOperation { id: 2, recipient: s.recipient }),
    ];
    let results = s.client.batch_operations(&ops);
    assert_eq!(
        results,
        vec![
            BatchOperationResult::Cancelled,
            BatchOperationResult::Created(2),
            BatchOperationResult::Claimed,
        ]
    );
    assert!(s.client.batch_operations(&Vec::new()).is_empty());
}

#[test]
fn batch_failure_undoes_a_claim_made_earlier_in_the_batch() {
    let s = setup();
    let expiry = s.timestamp() + 1_000;
    let a = s.client.create_transfer(&s.from, &s.recipient, &100, &expiry);
    let ops = vec![
        BatchOperation::Claim(ClaimTransferOperation { id: a, recipient: s.recipient }),
        BatchOperation::Claim(ClaimTransferOperation { id: a, recipient: s.recipient }),
    ];
    assert_eq!(s.client.try_batch_operations(&ops), Err(Ok(Error::NotPending)));
    assert_eq!(s.client.get_status(&a), Status::Pending);
    assert_eq!(s.balance(&s.recipient), 0);
    assert_eq!(s.balance(&s.client.address), 100);
}

#[test]
fn paging_continues_where_the_previous_page_ended() {
    let s = setup();
    let expiry = s.timestamp() + 1_000;
    for _ in 0..5 {
        s.client.create_transfer(&s.from, &s.recipient, &1, &expiry);
    }
    let mut seen = Vec::new();
    let mut start = 0u64;
    loop {
        let page = s.client.get_transfers_paged(&start, &2);
        seen.extend(page.iter().map(|t| t.id));
        if page.len() < 2 {
            break;
        }
        start = page.last().unwrap().id + 1;
    }
    assert_eq!(seen, vec![1, 2, 3, 4, 5]);
}

#[test]
fn pause_requires_the_admins_authorization() {
    let client = Client::deploy(false);
    let admin = client.generate();
    let token = client.create_token();
    client.sign(&admin);
    client.initialize(&admin, &token);
    client.host.borrow_mut().signers.clear();

    let res = client.try_pause();
    assert_eq!(res, Err(Err(HostError::MissingAuth(admin))));
    assert!(!client.is_paused());
    let res = client.try_transfer_admin(&admin);
    assert_eq!(res, Err(Err(HostError::MissingAuth(admin))));
    let res = client.try_add_caller(&admin);
    assert_eq!(res, Err(Err(HostError::MissingAuth(admin))));
    assert!(!client.is_caller_allowed(&admin));
}

#[test]
fn accepting_admin_requires_the_nominees_authorization() {
    let client = Client::deploy(false);
    let admin = client.generate();
    let nominee = client.generate();
    let token = client.create_token();
    client.sign(&admin);
    client.initialize(&admin, &token);
    client.transfer_admin(&nominee);

    let res = client.try_accept_admin();
    assert_eq!(res, Err(Err(HostError::MissingAuth(nominee))));
    assert_eq!(client.get_admin(), admin);

    client.sign(&nominee);
    client.accept_admin();
    assert_eq!(client.get_admin(), nominee);
}

#[test]
fn entrypoints_publish_their_events() {
    let s = setup();
    let expiry = s.timestamp() + 1_000;
    let id = s.client.create_transfer(&s.from, &s.recipient, &100, &expiry);
    s.client.claim_transfer(&id, &s.recipient);
    let nominee = s.generate();
    s.client.transfer_admin(&nominee);
    s.client.accept_admin();
    let events = s.client.events();
    assert_eq!(events[0], Event::Init { admin: s.admin, token: s.token });
    assert_eq!(events[1], Event::CallerAdded { caller: s.from });
    assert_eq!(
        events[2],
        Event::Created { id, from: s.from, recipient: s.recipient, amount: 100, expiry }
    );
    assert_eq!(events[3], Event::Claimed { id, recipient: s.recipient, amount: 100 });
    assert_eq!(events[4], Event::AdminTransferStarted { admin: s.admin, new_admin: nominee });
    assert_eq!(events[5], Event::AdminTransferCompleted { old_admin: s.admin, new_admin: nominee });
    assert_eq!(events.len(), 6);
}

#[test]
fn claim_and_cancel_need_initialization_of_the_token() {
    let client = Client::deploy(true);
    assert_eq!(client.try_claim_transfer(&1, &client.generate()), Err(Ok(Error::TransferNotFound)));
    let a = client.generate();
    let b = client.generate();
    assert_eq!(client.try_create_transfer(&a, &b, &1, &10), Err(Ok(Error::NotInitialized)));
    assert_eq!(client.try_add_caller(&a), Err(Ok(Error::NotInitialized)));
    assert_eq!(client.try_transfer_admin(&a), Err(Ok(Error::NotInitialized)));
}

#[test]
fn same_address_comparison_distinguishes_kind_and_key() {
    let a = Address { kind: AddressKind::Account, key: key_of(7) };
    let b = Address { kind: AddressKind::Contract, key: key_of(7) };
    let c = Address { kind: AddressKind::Account, key: key_of(8) };
    assert!(a.same_as(&a));
    assert!(!a.same_as(&b));
    assert!(!a.same_as(&c));
}

#[test]
fn host_calls_of_a_created_transfer_are_in_order() {
    let s = setup();
    let expiry = s.timestamp() + 1_000;
    let start = s.client.host.borrow().env.host_calls.len();
    let id = s.client.create_transfer(&s.from, &s.recipient, &100, &expiry);
    let calls = s.client.host.borrow().env.host_calls[start..].to_vec();
    assert_eq!(calls.len(), 5);
    assert_eq!(calls[0], HostCall::RequireAuth(s.from));
    assert_eq!(
        calls[1],
        HostCall::TokenTransfer { token: s.token, from: s.from, to: s.client.address, amount: 100 }
    );
    assert!(matches!(calls[2], HostCall::ExtendPersistentTtl { .. }));
    assert!(matches!(calls[3], HostCall::ExtendInstanceTtl { .. }));
    assert_eq!(
        calls[4],
        HostCall::Publish(Event::Created { id, from: s.from, recipient: s.recipient, amount: 100, expiry })
    );
}
