[package]
name = "satsuma"
version = "0.1.0"
edition = "2021"
publish = false

[dependencies]
rand = "0.9"
lofty = "*"
serde = { version = "1", features = ["derive"] }
serde_json = "1"
rusqlite = { version = "*", features = ["bundled"] }
walkdir = "2"
log = "0.4"
thiserror = "2"
rodio = "*"
