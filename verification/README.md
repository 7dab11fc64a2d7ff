# aid_escrow

An escrow for aid distribution: an administrator (or a distributor) locks
amounts of a token for recipients as *packages*; recipients claim them within a
time window, optionally proving membership in a Merkle allowlist; the
administrator can disburse, revoke, cancel, refund expired packages, extend
expiries, pause actions and withdraw the surplus that no package holds.

## Layout

- `src/` — the verified library. `AidEscrow` is the escrow's whole state; each
  entrypoint is a method whose contract states exactly when it refuses, with
  which error, and what the state becomes. Token queries (decimals, balances)
  and transfers are inputs to these methods: the caller makes them and hands
  over what came back.
  - `state.rs` — the state, its view and its invariant (the locked amount of
    each token is what its open packages hold).
  - `admin.rs`, `packages.rs`, `actions.rs`, `queries.rs` — the entrypoints.
  - `codec.rs` — decimal and hexadecimal parsing; `merkle.rs` — allowlist proofs
    over the host's SHA-256.
  - `keymap.rs` — a byte-keyed map; `accounting.rs` — sums over packages.
  - `laws.rs` — properties across entrypoints.
- `app/` — the Soroban contract around the library: storage, authorization,
  token contract calls and events.
- `tests/` — scenarios run against the library with an in-memory token ledger.
