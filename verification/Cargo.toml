[package]
name = "accounts"
version = "0.1.0"
edition = "2021"
publish = false

[dependencies]
chrono = { version = "0.4", default-features = false, features = ["clock", "std"] }
dashmap = "5"
hyper = { version = "0.14", default-features = false }
lettre = { version = "0.10", default-features = false, features = ["smtp-transport"] }
once_cell = "1"
parking_lot = "0.12"
rand = "0.8"
serde = { version = "1", features = ["derive"] }
sha256 = { version = "1", default-features = false }
thiserror = "1"
tokio = { version = "1", features = ["fs", "rt", "io-util"] }
toml = "0.5"
tracing = "0.1"
