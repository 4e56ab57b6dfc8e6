# tefi_oracle

The TeFi oracle for the Terra blockchain: a hub that answers price queries for
assets by asking registered price proxies in order of priority, and the proxies
themselves (Band Protocol, Chainlink, a fed proxy and a template).

- `src/` is the verified library. Each contract is a state type with one method
  per operation; contracts speak of the state through its view (`HubView` for the
  hub). Queries that need the answer of another contract hand out a request (or,
  for the hub's price search, a small state machine) and take the answers back.
  - `hub/`: messages, state, operations (`handle.rs`), queries, the dispatch of
    messages (`contract.rs`) and the properties that relate operations (`laws.rs`).
  - `store.rs`: the ordered key-value map that models the contract storage, with
    pagination; `keys.rs`: the byte order of storage keys.
  - `priority.rs`: priority lists and their stable sort.
  - `decimal.rs`: fixed-point prices and the calls into `cosmwasm-std` and
    `cosmwasm-bignumber` that compute them.
  - `proxy*.rs`: the proxy standard and the proxies.
- `app/` holds the CosmWasm entry points: it loads the state from storage, checks
  addresses with the host, performs the queries to other contracts, and saves.
- `tests/` runs the library on concrete scenarios.
