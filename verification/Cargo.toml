[package]
name = "membrane_contracts"
version = "0.1.0"
edition = "2021"
publish = false

[dependencies]
cosmwasm-std = "1.5"
cw-storage-plus = "1.2"
cw2 = "1.1"
serde = { version = "1", features = ["derive"] }
schemars = "0.8"
thiserror = "1"
