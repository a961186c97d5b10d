# mazze_storage

The storage of a Mazze node as a verified library: the catalogue of tables, the
layout of keys, the databases of snapshots and delta tries, the life of a
snapshot from the merge that makes it to the maintenance that removes it, and
the search for the tries of a state. The keys of the node and its keystore
(secp256k1, ECIES, AES, PBKDF2, scrypt) stand beside it.

- `src/` is the library. Every function states what it returns or changes, and
  Verus proves it. What comes from other crates is declared in small trusted
  items: `crypto/outside.rs`, `hex.rs`, `rlp_codec.rs`, `db/transaction.rs` and
  one item of `db/settings.rs`.
- `tests/` runs the library on concrete values.
- `app/` is ordinary Rust around the library: databases on disk, locks, threads,
  and the traits of other crates.

| Module | What it holds |
| --- | --- |
| `bytes`, `text`, `hash`, `hex`, `rlp_codec` | bytes in order, text, hashes, their written forms |
| `crypto` | keys, shared secrets, sealed messages, the keystore |
| `db` | settings of databases, buffered writes |
| `storage::storage_db` | tables, key layouts, walks, snapshot databases |
| `storage::storage_manager` | registration, maintenance, removal and restoring of snapshots |
| `storage::state_manager` | the search for the tries of a state |
| `storage::merkle_patricia_trie` | trie nodes and how they are written |
