# tbc-engine

The core of The Big Computer simulation engine as a Verus library: the logic of
the engine is written in `src/` with its behaviour stated in `requires`/`ensures`
contracts and proved.

- `src/` — the verified library: fixed-step clock, intent queues, netcode
  admission and the snapshot ring, guardrails, generational entity slots, the
  cell index, the soul registry and consent pacts, the delayed ledger queue,
  add-only props, verb decisions and messages, psi gating, the real-world-wide
  message store, wire framing, operations reports and their Prometheus text.
  Calls into `ulid` and `serde_json`, and `str::trim`, go through a few trusted
  wrappers in `src/ids.rs` and `src/social.rs`.
- `tests/` — tests run against the compiled library.
- `app/` — the host layer: floating-point simulation (positions, vitality,
  beam search, islands), SQLite storage with `rusqlite`, NATS JetStream
  replication with `async-nats`, JSON envelopes with `serde`, content packs.
