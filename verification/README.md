# settled

A tamper-evident, append-only audit log built on an RFC 6962 Merkle tree,
written in Verus: leaves are `SHA-256(0x00 || data)`, interior nodes
`SHA-256(0x01 || left || right)`, and the server signs the tree root with
Ed25519 as a signed tree head.

## Layout

- `src/` — the verified library.
  - `hash`, `merkle`, `tree_math`: leaf and node hashes, the Merkle tree
    hash, and the incremental tree whose root always equals it.
  - `proofs`: inclusion and consistency proofs, generated and verified,
    with the completeness laws (every leaf's proof verifies; any two sizes
    of a growing tree are consistent).
  - `sth`, `crypto`: the 48-byte signing payload and Ed25519 signing.
  - `storage`: stored record layouts, their checks and the decisions taken
    when opening and scanning the database.  `compute_nodes_from_leaves`
    keeps, per level, the latest completed node with an even index (the
    left child of the next parent) in a vector, rather than a map of all
    nodes keyed by `(level, index)`: a parent only ever needs that one
    node, and vstd gives no usable contract for a map keyed by a tuple.
  - `server`: request validation and answers, the watch stream, tree-head
    signing, witness pushes and the admin API's answers.
  - `witness`: the witness node that counter-signs pushed heads.
  - `sdk`: the client-side verifier and the client's result types.
  - `tools`: the checks of the log checker and the demo's table text.
  - `wire`, `hex_codec`, `bytes`, `text`: messages, hex text, byte fields
    and message text.
- `tests/` — tests of the library's public functions.
- `app/` — the programs around the library: the server's signing loop,
  storage and admin API, the witness node's HTTP server, and the
  test-vector generator.
