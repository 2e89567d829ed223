[package]
name = "macaudit"
version = "0.1.0"
edition = "2021"
publish = false

[dependencies]
serde = { version = "1", features = ["derive"] }
serde_json = "=1.0.154"
toml = "=0.8.23"
plist = "=1.10.3"
semver = "=1.0.28"
regex = "=1.13.1"
anyhow = "1"
async-trait = "0.1"
thiserror = "1"
tokio = { version = "1", features = ["full"] }
tokio-util = "0.7"
