# RemitFlow

A cross-border remittance escrow contract for Soroban/Stellar, with its
rules verified by Verus. Senders lock token funds for a recipient with an
expiry; the recipient can claim them before the expiry, and after it the
sender can cancel and take them back.

## Layout

- `src/` is the verified library.
  - `math.rs`: checked and saturating arithmetic on amounts and counters.
  - `types.rs`, `error.rs`: transfers, statuses, batch operations, errors.
  - `storage.rs`: the contract's storage, its keys, and a view of it as
    mathematical values (records in ascending id order, the allowlist as a
    set).
  - `env.rs`: one invocation's environment: storage, ledger time, the
    contract's address, and the calls it makes into the host (authorization,
    token transfers, time-to-live extensions, events).
  - `events.rs`: the events the contract publishes.
  - `contract.rs`: the entrypoints. Each state-changing one is specified by
    a step: the result, the storage left behind and the host calls made.
  - `laws.rs`: properties of the contract as a whole (the escrow stays
    within its cap and matches the tokens held, records only ever settle,
    funds are released at most once, only the admin runs privileged
    operations, paging neither skips nor repeats, and more), proved over
    the steps.
- `app/` binds the library to the Soroban host: it loads the storage,
  runs an entrypoint, and performs the host calls it made.
- `tests/` holds the tests, run against the library with a simulated host.
