[package]
name = "mazze_storage"
version = "0.1.0"
edition = "2021"
publish = false

[dependencies]
aes = "=0.8.4"
cbc = "=0.1.2"
ctr = "=0.9.2"
futures = "=0.3.34"
hmac = "=0.12.1"
kvdb = "=0.4.0"
kvdb-rocksdb = "=0.5.0"
libmdbx = "=0.9.0"
log = "=0.4.35"
parity-db = { version = "=0.4.13", features = ["instrumentation"] }
parity-util-mem = "=0.5.2"
parking_lot = "=0.12.5"
pbkdf2 = "=0.12.2"
rand = "=0.8.8"
rlp = "=0.4.6"
rustc-hex = "=2.1.0"
scrypt = "=0.11.0"
secp256k1 = "=0.20.3"
serde = { version = "=1.0.229", features = ["derive"] }
sha2 = "=0.10.9"
subtle = "=2.6.1"
tiny-keccak = { version = "=2.0.2", features = ["keccak"] }
tokio = { version = "=0.2.25", features = ["sync"] }
zeroize = "=1.9.1"
