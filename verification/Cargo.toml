[package]
name = "helloween"
version = "0.1.0"
edition = "2021"
publish = false

[dependencies]
anyhow = "1"
async-trait = "0.1"
axum = "0.7"
bincode = "1"
borsh = { version = "1", features = ["derive"] }
bytes = "1"
clap = { version = "4", features = ["derive"] }
derive_more = "0.99"
ethnum = "1"
flume = "0.11"
hmac = "0.12"
k256 = "0.13"
rand = "0.8"
reqwest = { version = "0.11", default-features = false, features = ["json"] }
secp256k1 = { version = "0.28", features = ["rand-std", "hashes-std"] }
serde = { version = "1", features = ["derive"] }
tokio = { version = "1", features = ["full"] }
tokio-util = "0.7"
tracing = "0.1"
