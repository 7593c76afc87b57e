[package]
name = "spamwatch"
version = "0.1.0"
edition = "2021"
publish = false

[dependencies]
anyhow = "1"
chrono = "0.4"
circular-buffer = "0.1"
strsim = "0.10"
serenity = { version = "0.11", default-features = false, features = ["client", "gateway", "rustls_backend", "model", "framework", "standard_framework", "cache"] }
shuttle-runtime = "0.20"
shuttle-secrets = "0.20"
shuttle-serenity = "0.20"
tokio = "1"
