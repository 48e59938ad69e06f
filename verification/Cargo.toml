[package]
name = "aush"
version = "0.1.0"
edition = "2021"
publish = false

[dependencies]
chrono = { version = "=0.4.45", default-features = false, features = ["clock", "std", "serde"] }
dirs = "=5.0.1"
fuzzy-matcher = "=0.3.7"
glob = "0.3"
logos = "=0.14.4"
nu-ansi-term = "=0.50.3"
serde = { version = "=1.0.229", features = ["derive"] }
serde_json = "=1.0.154"
terminal_size = "0.4"
thiserror = "=1.0.69"
