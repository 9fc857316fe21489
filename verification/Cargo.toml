[package]
name = "ipn"
version = "0.1.0"
edition = "2021"
publish = false

[dependencies]
anyhow = "1"
async-channel = "2"
blake3 = "1"
ciborium = "0.2"
directories = "6"
ed25519-dalek = "2"
futures-lite = "2"
qrcode = { version = "0.14", default-features = false }
serde = { version = "1", features = ["derive"] }
tokio = { version = "1", features = ["io-util", "net", "rt-multi-thread", "time"] }
tracing-subscriber = { version = "0.3", features = ["env-filter"] }
