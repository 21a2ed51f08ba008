[package]
name = "validator"
version = "0.1.0"
edition = "2021"
publish = false

[dependencies]
crossbeam-channel = "0.5"
evmap = "10"
rand = "0.6"
secp256k1 = { version = "0.22", features = ["rand-std", "bitcoin_hashes", "global-context", "serde"] }
serde = { version = "1", features = ["derive"] }
serde_json = "1"
uuid = "1"
