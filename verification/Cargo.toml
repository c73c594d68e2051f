[package]
name = "blinky"
version = "0.1.0"
edition = "2021"
publish = false

[dependencies]
chrono = "*"
serde_json = "*"
rusqlite = { version = "*", features = ["bundled"] }
dirs = "*"
