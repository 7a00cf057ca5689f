# latticed

A tamper-evident audit chain for filesystem events, verified with Verus.

Every event is sealed into a block whose SHA-256 hash covers the previous
block's hash; Ed25519-signed checkpoints bind the chain head (height and hash)
to a key kept off the host. `verify` replays both.

Layout:

- `src/` — the verified library
  - `block.rs`, `chain.rs`: blocks, hashing, the chain and its tamper-evidence lemmas
  - `sign.rs`: keys, checkpoint messages, signing and verification
  - `audit.rs`: replaying a stored chain and its checkpoints into findings
  - `storage.rs`: write buffering, file names, rotation plans, last-line lookup
  - `daemon.rs`: per-event decisions of the daemon
  - `encoding.rs`, `text.rs`: decimal and hex encodings, whitespace trimming
  - `crypto.rs`: the trusted entry points into `sha2`, `ed25519-dalek`, `rand_core` and `chrono`
- `app/` — the `latticed` program: CLI, inotify watching, signals, threads and file I/O
- `tests/` — tests of the library

Chain format: `chain.jsonl` holds one JSON block per line. A block's hash is
the lowercase hex SHA-256 of `index|timestamp|n|data|prev_hash`, where the
numbers are decimal and `n` is the byte length of `data`; the separators and
the length make the hashed bytes determine every field. Every block,
including the first, must carry the hash of its own fields.

`latticed verify` fails unless the chain is non-empty and intact and a public
key and at least one signed checkpoint are present, all checkpoints verify,
their heights strictly increase, and the newest names a block of the chain
(blocks recorded after it may follow).
`--allow-unsigned` accepts a chain without key or checkpoints. The daemon
signs a checkpoint only when the head has moved above the last signed height,
and a fresh chain's genesis block is stored as its first record.
