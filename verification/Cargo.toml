[package]
name = "ekanban"
version = "0.1.0"
edition = "2021"
publish = false

[dependencies]
chrono = "0.4"
global-hotkey = "0.7"
rusqlite = { version = "0.37", features = ["bundled"] }
serde_json = "1"
thiserror = "2"
