[package]
name = "quiz_session"
version = "0.1.0"
edition = "2021"
publish = false

[dependencies]
anyhow = "=1.0.104"
base64 = "=0.12.3"
bincode = "=1.3.3"
chrono = { version = "=0.4.45", features = ["serde"] }
csv = "=1.4.0"
hex = "=0.4.3"
rand = "=0.7.3"
ring = "=0.16.20"
serde = { version = "=1.0.229", features = ["derive"] }
tokio = { version = "=0.2.25", features = ["full"] }
toml = "=0.5.11"
warp = { version = "=0.2.5", features = ["compression"] }
