[package]
name = "cw_vault_standard"
version = "0.1.0"
edition = "2021"
publish = false

[dependencies]
cosmwasm-std = "*"
cosmwasm-schema = "*"
schemars = "*"

[dev-dependencies]
serde_json = "*"
