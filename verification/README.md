# onchain_state

Targeted queries into a contract's state tree, verified with Verus.

A state tree is made of nodes: null, cells, arrays, maps and bounded Merkle trees. A key, an
aligned value, is interpreted by the node that it is applied to: as an array index, a map key, or
a tree position. A query is a path of serialized keys; its answer is the serialized leaf that the
path leads to, nothing where a key is missing, or an error message.

- `src/value.rs`: aligned values and their reading as numbers; `src/bytes.rs` holds the byte
  strings underneath.
- `src/state.rs`: the nodes of the tree.
- `src/nav.rs`: `idx` and `idx_path`, against the specifications `step` and `walk`.
- `src/query.rs`: the same with the errors that queries report, and `query_state`.
- `src/laws.rs`: what holds of navigation and of queries as a whole.
- `src/text.rs`: pieces of message text.
- `app/`: the ledger's serialization and state tree around `query_state`, and error types with
  `Display` and `std::error::Error`.

The wire format of keys and leaves is the caller's: `query_state` takes a deserializer of keys and
a serializer of leaves, and its contract holds for every choice of the two. A collection never
reaches the serializer.
