[package]
name = "tuta_calendar"
version = "0.1.0"
edition = "2021"
publish = false

[dependencies]
anyhow = "1"
async-trait = "0.1"
base64 = "0.22"
caldir-core = "0.17.4"
chrono = "0.4"
chrono-tz = "0.10"
rand = "0.9"
serde = { version = "1", features = ["derive"] }
serde_json = "1"
sha2 = "0.10"
tokio = { version = "1", features = ["macros", "rt"] }
toml = "0.9"
