[package]
name = "rllm"
version = "0.1.0"
edition = "2021"
publish = false

[dependencies]
serde_json = "=1.0.154"
uuid = { version = "=1.29.0", features = ["v4"] }
subtle = "=2.6.1"
indexmap = "=2.14.2"
safetensors = "=0.7.0"
anyhow = "1"
serde = { version = "1", features = ["derive"] }
thiserror = "2"
clap = { version = "4", features = ["derive", "env"] }
tokio = { version = "1", default-features = false, features = ["rt-multi-thread", "macros", "net", "sync", "time"] }
tokio-stream = "0.1"
async-stream = "0.3"
axum = "0.8"
tower = { version = "0.5", features = ["limit"] }
tower-http = { version = "0.6", features = ["cors", "trace"] }
tonic = { version = "0.12", default-features = false }
metrics-exporter-prometheus = { version = "0.16", default-features = false }
tracing = "0.1"
rand = "0.9"
rand_chacha = "0.9"
half = "2"
float8 = "=0.6.1"
candle-core = "=0.9.2"
candle-nn = "=0.9.2"
hf-hub = { version = "0.4", default-features = false, features = ["ureq"] }
xgrammar = { version = "*", default-features = false }
dlpark = "=0.6.0"
