[package]
name = "resource_sync"
version = "0.1.0"
edition = "2021"
publish = false

[dependencies]
sha2 = "*"
reqwest = { version = "*", default-features = false }
tokio = { version = "*", features = ["rt-multi-thread", "fs", "io-util", "sync", "macros"] }
serde = { version = "*", features = ["derive"] }
serde_json = "*"
indicatif = "*"
tracing = "*"
