[package]
name = "jcode_surfaces"
version = "0.1.0"
edition = "2021"
publish = false

[dependencies]
anyhow = "1"
base64 = "0.22"
parley = "*"
reqwest = { version = "0.12", default-features = false, features = ["json", "rustls-tls"] }
serde_json = "1"
tokio = { version = "1", features = ["sync"] }
unicode-width = "0.2"
vello = { version = "*", default-features = false }
