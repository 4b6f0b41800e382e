[package]
name = "dex"
version = "0.1.0"
edition = "2021"
publish = false

[dependencies]
bytes = "1"
rlp = "0.4"
serde = { version = "1", features = ["derive"] }
serde_json = "1"
derive_more = "0.99"
hex = "0.4"
tiny-keccak = { version = "2", features = ["keccak"] }
hasher = { version = "0.1", features = ["hash-keccak"] }
muta-protocol = "0.1.0-alpha.1"
