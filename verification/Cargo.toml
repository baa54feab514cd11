[package]
name = "kuro_roku"
version = "0.1.0"
edition = "2021"
publish = false

[dependencies]
blake3 = "*"
rusqlite = { version = "*", features = ["bundled"] }
chrono = "*"
walkdir = "*"
anyhow = "*"
log = "*"
serde = { version = "*", features = ["derive"] }
