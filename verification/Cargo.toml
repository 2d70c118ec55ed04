[package]
name = "optimization"
version = "0.1.0"
edition = "2021"
publish = false

[dependencies]
good_lp = { version = "=1.15.3", default-features = false, features = ["microlp"] }
serde = { version = "=1.0.229", features = ["derive"] }
serde_json = "=1.0.154"
