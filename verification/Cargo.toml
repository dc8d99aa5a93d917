[package]
name = "relnotes"
version = "0.1.0"
edition = "2021"
publish = false

[dependencies]
askama = "0.12"
chrono = "0.4"
fancy-regex = "0.13"
reqwest = { version = "0.12", default-features = false, features = ["blocking", "json", "rustls-tls"] }
serde_json = "1"
