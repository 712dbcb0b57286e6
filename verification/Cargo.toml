[package]
name = "wineswap"
version = "0.1.0"
edition = "2021"
publish = false

[dependencies]
cosmwasm-std = "=0.16.7"
cw-storage-plus = "=0.9.2"
cw0 = "=0.9.1"
cw20 = "=0.9.1"
terra-cosmwasm = "=2.2.0"
protobuf = "=2.28.0"
schemars = "=0.8.22"
serde = { version = "=1.0.229", default-features = false, features = ["derive"] }
thiserror = "=1.0.69"
