[package]
name = "vibe_check"
version = "0.1.0"
edition = "2021"
publish = false

[dependencies]
blake3 = "=1.8.7"
jiff = "=0.2.39"
camino = "=1.2.6"
serde = { version = "=1.0.229", features = ["derive"] }
serde_json = "=1.0.154"
thiserror = "=2.0.21"
eyre = "=0.6.14"
tracing = "=0.1.44"
async-trait = "=0.1.92"
