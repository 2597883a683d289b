[package]
name = "hierarchical_vae_trading"
version = "0.1.0"
edition = "2021"
publish = false

[dependencies]
anyhow = "1"
ndarray = "0.15"
rand = "0.8"
reqwest = { version = "0.12", default-features = false, features = ["blocking", "json", "rustls-tls"] }
serde = { version = "1", features = ["derive"] }
