[package]
name = "corro"
version = "0.1.0"
edition = "2021"
publish = false

[dependencies]
thousands = "*"
serde = { version = "*", features = ["derive"] }
serde_json = "*"
redis = "*"
tokio = { version = "*", features = ["rt-multi-thread", "macros"] }
playground-api = "*"
