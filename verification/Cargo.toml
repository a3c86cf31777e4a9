[package]
name = "omc_registry"
version = "0.1.0"
edition = "2021"
publish = false

[dependencies]
base64 = "=0.22.1"
chrono = { version = "=0.4.45", default-features = false, features = ["clock", "std"] }
reqwest = { version = "=0.12.28", default-features = false }
semver = "=1.0.28"
serde = { version = "=1.0.229", features = ["derive"] }
serde_json = "=1.0.154"
serde_yaml = "0.9"
sha2 = "=0.10.9"
toml = "=0.8.23"
urlencoding = "=2.1.3"
