[package]
name = "huzi"
version = "0.1.0"
edition = "2021"
publish = false

[dependencies]
clap = { version = "4", features = ["derive"] }
dashmap = "6"
ropey = "1"
serde_json = "1"
tower-lsp-server = "0.23"
tracing = "0.1"
