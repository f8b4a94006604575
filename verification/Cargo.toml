[package]
name = "tbc-engine"
version = "0.1.0"
edition = "2021"
publish = false

[dependencies]
ulid = "1"
serde = { version = "1", features = ["derive"] }
serde_json = "1"
rand = "0.8"
rand_pcg = "0.3"
rusqlite = { version = "*", features = ["bundled"] }
thiserror = "1"
tracing = "0.1"
async-nats = "*"
futures-util = "0.3"
tokio = { version = "1", features = ["rt-multi-thread", "time", "sync"] }

[dev-dependencies]
blake3 = "1"
