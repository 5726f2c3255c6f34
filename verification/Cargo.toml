[package]
name = "options_maker"
version = "0.1.0"
edition = "2021"
publish = false

[dependencies]
rand = "*"
anyhow = "*"
chrono = "*"
serde = { version = "*", features = ["derive"] }
serde_json = "*"
toml = "*"
