[package]
name = "appscale_core"
version = "0.1.0"
edition = "2021"
publish = false

[dependencies]
anyhow = "1"
clap = { version = "4", features = ["derive"] }
flatbuffers = "*"
rustc-hash = "1"
serde = { version = "1", features = ["derive"] }
serde_json = "1"
taffy = "0.6"
thiserror = "1"
tracing = "0.1"
