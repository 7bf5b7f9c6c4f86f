# crdt

A replicated growable array (RGA), the sequence CRDT behind a collaborative
text editor, written in Verus with its behaviour proved.

- `src/rga.rs`: the array (`Rga`, `RgaUnit`, `RgaInsertQuery`), its abstract
  view (`RgaView`: the units in order, the clock, the owner) and the
  operations `new`, `insert`, `delete`, `compact`, `insert_last`, `clone`.
- `src/placement.rs`: the meaning of the operations over sequences of units.
- `src/chain.rs`: the walks along the linked units that the operations use.
- `src/text.rs`: the document of an array of characters as a `String`.
- `src/store.rs`: the flat stored form (`RgaSerializer`, `RgaDeserializer`).
- `src/events.rs`: the realtime events and what the server does with an edit.
- `src/convergence.rs`, `src/laws.rs`: the laws (concurrent inserts converge,
  deletes and inserts commute, compaction keeps the document, ...).
- `app/`: the websocket server around the library (axum, tokio, serde).
- `tests/`: the test suite.
