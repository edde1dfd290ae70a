[package]
name = "numaflow-core"
version = "0.1.0"
edition = "2021"
publish = false

[dependencies]
async-nats = "*"
bytes = "1"
chrono = "0.4"
futures = "0.3"
prost = "0.13"
reqwest = { version = "0.12", default-features = false }
serde = { version = "1", features = ["derive"] }
tokio = { version = "1", features = ["macros", "rt", "rt-multi-thread", "sync", "time"] }
tokio-stream = "0.1"
tokio-util = "0.7"
tracing = "0.1"
