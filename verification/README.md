# shade

The decision logic of the Shade payment contracts, written in Verus and
proved against its contracts.

- `src/` — the verified library. `state` holds the Shade contract's storage
  as plain values (`ShadeState`, viewed as `ShadeView`); `admin`, `analytics`,
  `event` and `account_factory` are its operations, each a state transition
  whose contract gives the result and the next state exactly; `factory` is the
  ticketing factory; `account` the merchant account data model; `deploy` the
  salt derivation that calls the host's Keccak-256; `host_vec` the token
  lists and rankings, each a host vector (`soroban_sdk::Vec`) that only that
  module builds; `laws` the properties that span several operations.
- `app/` — the Soroban contract glue: it loads and stores the state, checks
  authorization, calls token contracts and the deployer, and publishes
  events.
- `tests/` — tests of the library.
