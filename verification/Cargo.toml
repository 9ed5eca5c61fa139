[package]
name = "flowmux"
version = "0.1.0"
edition = "2021"
publish = false

[dependencies]
serde = { version = "=1.0.229", features = ["derive"] }
serde_json = "=1.0.154"
dirs = "=5.0.1"
sha2 = "0.10"
chrono = { version = "0.4", default-features = false, features = ["std"] }
