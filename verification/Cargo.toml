[package]
name = "bubblegum_nif"
version = "0.1.0"
edition = "2021"
publish = false

[dependencies]
solana-program = "=1.18.26"
solana-sdk = "=1.18.26"
anyhow = "=1.0.104"
async-trait = "=0.1.92"
bincode = "=1.3.3"
bs58 = "=0.5.1"
dashmap = "=5.5.3"
lazy_static = "=1.5.1"
log = "=0.4.34"
mpl-bubblegum = "1"
mpl-token-metadata = "4"
rocksdb = "*"
rustler = "*"
serde = { version = "=1.0.229", features = ["derive"] }
serde_json = "=1.0.154"
thiserror = "=1.0.69"
tokio = { version = "=1.54.1", features = ["sync", "time", "rt"] }
tracing = "=0.1.44"
