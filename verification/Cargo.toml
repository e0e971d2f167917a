[package]
name = "chainhook-observer"
version = "0.1.0"
edition = "2021"
publish = false

[dependencies]
bitcoincore-rpc = "=0.18.0"
crossbeam-channel = "=0.5.17"
hex = "=0.4.3"
hiro-system-kit = { version = "=0.3.4", features = ["log"] }
rocket = { version = "=0.5.2", features = ["json"] }
serde_json = "=1.0.154"
