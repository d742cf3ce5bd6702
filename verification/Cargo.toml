[package]
name = "liquid_staking_token"
version = "0.1.0"
edition = "2021"
publish = false

[dependencies]
near-sdk = { version = "=5.30.0", features = ["non-contract-usage", "deterministic-account-ids"] }
near-contract-standards = "=5.30.0"
near-plugins = "=0.5.3"
num-traits = "=0.2.19"
ruint = "=1.21.1"
