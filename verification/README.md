# ncc

The verified core of NCC-1701-H, a native agent-command harness.

- `src/crew.rs` — crew identities, per-leader model assignments, manifest
  validation; laws on assignment.
- `src/orchestrator.rs` — what the Warp Core publishes when it comes online
  and how it answers each owner command, and laws over command sessions.
- `src/warpcore.rs` — the local-first store: documents, ship event log and
  replication outbox, with its invariant and laws.
- `src/relay.rs` — the relay of outbox commands to base, step by step.
- `src/history.rs` — laws over any sequence of store operations: sequence
  numbers, local versions, documents and status counts across histories.
- `src/bridge.rs` — checks on owner input (GitHub locators, authorizations,
  captain messages and staffing briefs).
- `src/text.rs`, `src/ids.rs` — trimming, decimal text, UUIDs and the clock.

`app/` holds the program around the library: SQLite persistence of the Warp
Core, the asynchronous command plane and relay loop, and the bridge requests.
