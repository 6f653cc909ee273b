[package]
name = "latency_aggregator"
version = "0.1.0"
edition = "2021"
publish = false

[dependencies]
futures = "0.3"
petgraph = "0.6"
reqwest = { version = "0.11", default-features = false, features = ["json"] }
serde = { version = "1", features = ["derive"] }
serde_json = "1"
ssh2 = "0.9"
thiserror = "1"
tokio = { version = "1", features = ["macros", "rt-multi-thread", "signal", "time"] }
tracing = "0.1"
tracing-subscriber = "0.3"
warp = "0.3"
