# CraftSEC

Threshold attestation: every transaction of a program carries a signature of a group of nodes, of
which as many as a threshold says have validated it. The group's key is shared among the nodes and
exists nowhere as a whole.

The library under `src/` is written in Verus. Its contracts say what its functions return, and where
chance, the clock or a database decides, what is made of each outcome. Its laws (the proof functions
whose names start with `law_`) relate the functions to each other:

- any participants, as many as the threshold says, reconstruct the group's secret and produce a
  signature that verifies under the group's key; fewer of them learn nothing of the secret;
- a partial signature verifies just if it is the one that the signer owes;
- a request that enough nodes find valid, whichever they are, is attested, and one that none of them
  finds valid is not; nodes that sign wrongly are left out;
- a rotation of the shares keeps the group's key, and old shares do not fit the new ones;
- of what programs ask of the databases, only statements that SQLite finds to be read-only and that
  have result columns are run, and no pragmas;
- keys derived from different program ids or seeds are derived from different inputs;
- what is signed (transactions, receipts, execution attestations) determines what it stands for,
  amounts by their text.

Points, scalars, hashes, hexadecimal text, JSON, random bytes, the clock, SQLite and the
compiler of WASM programs come from other crates and from the standard library. The functions that call them are marked
`#[verifier::external_body]`, and their doc comments say what is claimed of each.

- `src/`: the library. `src/lib.rs` lists its modules.
- `tests/`: its tests.
- `app/`: the command line, the `serde` forms of the library's values, programs run by `wasmtime`,
  and a transport with latency.
