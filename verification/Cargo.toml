[package]
name = "y_harness"
version = "0.1.0"
edition = "2021"
publish = false

[dependencies]
ed25519-dalek = "=2.2.0"
reqwest = { version = "=0.13.5", default-features = false, features = ["rustls-no-provider", "http2"] }
rusqlite = { version = "=0.41.1", features = ["bundled"] }
semver = { version = "=1.0.28", features = ["serde"] }
serde = { version = "1", features = ["derive"] }
serde_json = "=1.0.154"
sha2 = "=0.10.9"
tokio = { version = "=1.54.1", features = ["sync", "time", "rt", "macros"] }
zeroize = "=1.9.1"
