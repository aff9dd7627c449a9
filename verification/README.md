# nebula_nomad

Verified core of three contract modules of the Stellar Nebula Nomad game,
written in Verus.

- `src/proxy.rs`: the upgradeable-contract bookkeeping (initialization,
  two-step upgrades, version tracking, upgrade history, rollback, migration
  hook).
- `src/achievements.rs`: the achievement catalog, progress percentages and
  the top-10 achievement leaderboard.
- `src/resource_minter.rs`: resource harvesting over a nebula layout and
  listing on the DEX offer hook.
- `src/values.rs`: plain values for addresses, symbols and hashes.
- `src/staging.rs`: the `arrayvec` staging list a harvest collects its
  resources in.

Each module models the part of the contract environment it touches (storage
entries, events, demanded authorizations, installed code) as a plain value
with a mathematical view, and every operation is specified as a step on that
view.  The laws of each module (what every operation keeps, what one call
undoes, what a read gives back after a write) are proof functions at the end
of its file.

`app/` holds the Soroban glue: it loads the touched storage entries into the
model, runs the verified operation, and demands the authorizations, writes
the storage, installs the Wasm and publishes the events the model recorded.
The host offers no call that reads back the hash of the Wasm a contract
runs, so `app/` keeps it in instance storage, starting from the hash handed
to `initialize` and updated from the model after each upgrade or rollback.
That hash is what an upgrade keeps for rollback.
