[package]
name = "rialight"
version = "0.1.0"
edition = "2021"
publish = false

[dependencies]
num-bigint = "0.4"
lazy-regex = "3"
serde = { version = "1", features = ["derive"] }
serde_json = "1"
toml = "0.8"
dirs = "5"
chrono = "0.4"
futures = "0.3"
bytes = "1"
tokio = { version = "1", features = ["fs", "time", "rt"] }
icu = { version = "1", default-features = false }
fluent = "0.16"
fluent-syntax = "0.11"
unic-langid-impl = "0.9"
reqwest = { version = "0.11", default-features = false }
