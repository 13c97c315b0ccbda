# kv — a Raft-replicated key-value store, verified with Verus

`src/` is the verified library:

- `raft/model.rs` — a node as a mathematical value (`RaftState`) and each protocol
  step as a spec function over it (elections, votes, log replication, commit, apply).
- `raft/election.rs`, `raft/replication.rs`, `raft/log.rs` — the executable `RaftNode`
  operations; each is proved to do exactly what its spec function says.
- `raft/quorum.rs`, `raft/quorum_order.rs` — the commit rule's quorum index, its
  existence and uniqueness, and its equality with the position in the sorted list of
  match indices.
- `raft/actor.rs` — one step of a node's event loop (input to state change, reply,
  messages, timer reset, persistence flag).
- `raft/laws.rs` — properties across operations (terms never decrease, one vote per
  term, stale calls refused, commit rule, log shape after a successful append, reads
  after writes, no committed entry lost on a late AppendEntries, the log stays densely
  indexed, ...).
- `storage.rs` — the key-value state machine; `api.rs` — the HTTP `PUT`/`GET`
  decisions; `dashboard.rs` — the dashboard's row order and style.

`app/` is the unverified program around it: the tokio event loop, gRPC (tonic) and
HTTP (axum) servers and clients, JSON forms (serde), the terminal dashboard (ratatui).
Run a node with `<id>` or the dashboard with `dashboard`.
