[package]
name = "settled"
version = "0.1.0"
edition = "2021"
publish = false

[dependencies]
sha2 = "0.10"
ed25519-dalek = { version = "2", features = ["rand_core"] }
hex = "0.4"
rand = "0.8"
serde = { version = "1", features = ["derive"] }
serde_json = "1"
prost = "0.12"
rocksdb = { version = "0.22", default-features = false }
tokio = { version = "1", features = ["rt-multi-thread", "macros", "sync", "time", "net", "signal"] }
axum = "0.7"
reqwest = { version = "0.12", default-features = false, features = ["json"] }
clap = { version = "4", features = ["derive", "env"] }
anyhow = "1"
thiserror = "1"
tracing = "0.1"
tracing-subscriber = "0.3"
prometheus = { version = "0.13", default-features = false }
lazy_static = "1"
