[package]
name = "beacon_rand"
version = "0.1.0"
edition = "2021"
publish = false

[dependencies]
time = { version = "*", features = ["parsing"] }
reqwest = { version = "*", default-features = false, features = ["blocking", "rustls-tls", "json"] }
serde_json = "*"
