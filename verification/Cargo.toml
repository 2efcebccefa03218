[package]
name = "rollup"
version = "0.1.0"
edition = "2021"
publish = false

[dependencies]
alloy-primitives = { version = "=1.7.3", features = ["serde"] }
alloy-sol-types = "=1.7.3"
anyhow = "1"
axum = { version = "0.8", features = ["macros"] }
backoff = { version = "0.4", features = ["tokio"] }
bincode = "=1.3.3"
clap = { version = "4", features = ["derive"] }
config = { version = "0.15", default-features = false, features = ["toml"] }
dotenv = "0.15"
dotenvy = "0.15"
monotree = { version = "=0.4.0", features = ["db_rocksdb"] }
rocksdb = { version = "0.23", default-features = false }
serde = { version = "1", features = ["derive"] }
serde_json = "1"
sha3 = "=0.10.9"
sp1-zkvm = { version = "=6.10.0", default-features = false, features = ["lib"] }
thiserror = "2"
tokio = { version = "1", features = ["full"] }
