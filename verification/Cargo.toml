[package]
name = "gamesync"
version = "0.1.0"
edition = "2021"
publish = false

[dependencies]
anyhow = "1"
uuid = { version = "1", features = ["v4", "v5", "serde"] }
serde = { version = "1", features = ["derive"] }
serde_json = "1"
tempfile = "3"
directories = "*"
image = { version = "0.25", default-features = false, features = ["jpeg"] }
reqwest = { version = "0.12", default-features = false, features = ["blocking"] }
rusqlite = { version = "*", features = ["bundled"] }
keyring = "3"
notify = "*"
futures = "0.3"
log = "0.4"
env_logger = "*"
