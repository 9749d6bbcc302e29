# rwa_contracts

Verified logic for four Soroban contracts that tokenize real-world assets on
Stellar:

- **compliance** — KYC allowlist, expiry, suspension and jurisdiction blocks;
  `is_allowed` is the check every token movement consults.
- **asset_token** — a compliant token: transfers, mints, burns, approvals,
  pausing, valuation and a timelocked upgrade; the balances always add up to
  the total supply.
- **registry** — the index of registered assets and their total value locked.
- **dividend** — pro-rata distributions over a frozen holder snapshot, claimed
  once per holder, with a sweep of the unclaimed remainder after a delay.

## Layout

- `src/` — the library, verified with Verus. Each contract is a state machine
  over plain values: addresses are `Address` values, texts are byte vectors,
  and what another contract answers (a compliance verdict, a token's supply or
  admin) or the current ledger sequence is passed in as an argument. Every
  entry point states, in its `ensures`, which error it returns on which input
  and what the new state is. The `law_*` proof functions state properties that
  span calls.
- `tests/` — tests of the library on concrete values.
- `app/` — the Soroban contracts themselves: storage, authorization, events,
  cross-contract calls and token payments around the library's transitions.
