[package]
name = "cool_ns"
version = "0.1.0"
edition = "2021"
publish = false

[dependencies]
anyhow = "1"
base32 = "0.4"
cosmwasm-std = "1"
cosmwasm-storage = "1"
multihash = { version = "0.14", default-features = false, features = ["std", "multihash-impl", "sha2"] }
schemars = "0.8"
serde = { version = "1", default-features = false, features = ["derive"] }
