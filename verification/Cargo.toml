[package]
name = "dyrics"
version = "0.1.0"
edition = "2021"
publish = false

[dependencies]
figment = { version = "0.10", features = ["toml", "env"] }
reqwest = { version = "0.12", features = ["json"] }
rspotify = { version = "0.13", features = ["cli"] }
serde = { version = "1", features = ["derive"] }
serde_json = "1"
serde_with = "3"
thiserror = "1"
tokio = { version = "1", features = ["full"] }
