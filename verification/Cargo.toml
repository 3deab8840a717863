[package]
name = "capas_api"
version = "0.1.0"
edition = "2021"
publish = false

[dependencies]
unicode-normalization = "*"
base64 = "*"
serde_json = "*"
reqwest = { version = "*", default-features = false, features = ["blocking", "rustls-tls"] }
scraper = "*"
