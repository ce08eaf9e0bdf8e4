[package]
name = "hord_db"
version = "0.1.0"
edition = "2021"
publish = false

[dependencies]
hex = "=0.4.3"
dashmap = "=5.5.3"
fxhash = "=0.2.1"
hex-simd = "=0.8.0"
serde = { version = "1", features = ["derive"] }
serde_cbor = "=0.11.2"
rocksdb = { version = "=0.20.1", default-features = false }
rusqlite = { version = "=0.27.0", features = ["bundled"] }
crossbeam-channel = "0.5"
threadpool = "1.8"
chainhook-types = "=1.0.12"
hiro-system-kit = { version = "=0.3.4", features = ["log"] }
