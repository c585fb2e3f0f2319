[package]
name = "qa_ledger"
version = "0.1.0"
edition = "2021"
publish = false

[dependencies]
borsh = "=0.7.2"
near-sdk = "=1.0.1"
serde = { version = "=1.0.229", features = ["derive"] }
syn = "=1.0.57"
wee_alloc = "=0.4.5"
