[package]
name = "higress_stream"
version = "0.1.0"
edition = "2021"
publish = false

[dependencies]
proxy-wasm = "=0.2.5"
serde = { version = "=1.0.229", features = ["derive"] }
serde_json = "=1.0.154"
