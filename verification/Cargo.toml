[package]
name = "switchboard"
version = "0.1.0"
edition = "2021"
publish = false

[dependencies]
anyhow = "1"
async-trait = "0.1"
bytes = "1"
crossbeam-skiplist = "0.1"
dashmap = "5"
futures-core = "0.3"
futures-util = { version = "0.3", features = ["sink"] }
hyper = { version = "0.14", features = ["server", "http1", "tcp"] }
lazy_static = "1"
parking_lot = "0.12"
prometheus = { version = "0.13", default-features = false }
serde = { version = "1", features = ["derive"] }
serde_yaml = "0.9"
thiserror = "1"
tokio = { version = "1", features = ["full"] }
tokio-stream = { version = "0.1", features = ["sync"] }
tokio-tungstenite = "0.21"
tracing = "0.1"
tracing-subscriber = { version = "0.3", features = ["env-filter"] }
zerocopy = { version = "0.8", features = ["derive"] }
