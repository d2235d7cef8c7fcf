[package]
name = "angel_staking"
version = "0.1.0"
edition = "2021"
publish = false

[dependencies]
cosmwasm-std = { version = "1.5", features = ["staking"] }
cosmwasm-schema = "1.5"
cw2 = "1.1"
cw-controllers = "1.1"
cw-storage-plus = "1.2"
cw-utils = "1.0"
schemars = "0.8"
serde = { version = "1.0", features = ["derive"] }
thiserror = "1.0"
