[package]
name = "blob_indexer"
version = "0.1.0"
edition = "2021"
publish = false

[dependencies]
anyhow = "1"
backoff = "0.4"
ethers = { version = "2", default-features = false }
serde = { version = "1", features = ["derive"] }
sha2 = "0.10"
tokio = { version = "1", features = ["time"] }
tracing = "0.1"
