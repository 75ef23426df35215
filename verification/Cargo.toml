[package]
name = "jarvis_core"
version = "0.1.0"
edition = "2021"
publish = false

[dependencies]
regex = "1"
sha2 = "0.10"
chrono = "0.4"
rand = "0.8"
seqdiff = "0.3"
serde = { version = "1", features = ["derive"] }
serde_json = "1"
toml = "0.8"
once_cell = "1"
parking_lot = "0.12"
log = "0.4"
