[package]
name = "runepool_replicator"
version = "0.1.0"
edition = "2021"
publish = false

[dependencies]
rusty-leveldb = "*"
anyhow = "1"
serde = { version = "1", features = ["derive"] }
serde_json = "1"
tokio = { version = "1", features = ["rt", "rt-multi-thread", "macros", "time", "net"] }
reqwest = { version = "*", default-features = false, features = ["json"] }
axum = "*"
