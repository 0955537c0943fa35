[package]
name = "formchain"
version = "0.1.0"
edition = "2021"
publish = false

[dependencies]
candid = "=0.10.39"
chacha20poly1305 = "0.10"
ciborium = "=0.2.2"
hex = "=0.4.3"
ic-cdk = "=0.13.6"
ic-ledger-types = "=0.10.0"
ic-stable-structures = "=0.6.9"
serde = { version = "=1.0.229", features = ["derive"] }
serde_bytes = "=0.11.19"
serde_json = "=1.0.154"
