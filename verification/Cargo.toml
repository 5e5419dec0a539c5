[package]
name = "ar_settings"
version = "0.1.0"
edition = "2021"
publish = false

[dependencies]
async-trait = "=0.1.92"
chrono = { version = "=0.4.45", default-features = false, features = ["std"] }
indexmap = { version = "=2.14.2", features = ["serde"] }
serde = { version = "=1.0.229", features = ["derive"] }
serde_json = { version = "=1.0.154", features = ["float_roundtrip"] }
serenity = { version = "=0.12.5", default-features = false, features = ["builder", "client", "collector", "gateway", "model", "rustls_backend"] }
uuid = "=1.29.0"
