[package]
name = "wildfly_meta"
version = "0.6.1"
edition = "2021"
publish = false

[dependencies]
anyhow = "1"
regex = "1"
reqwest = { version = "0.12", default-features = false, features = ["blocking", "rustls-tls"] }
semver = "1"
serde = { version = "1", features = ["derive"] }
toml = "0.8"
