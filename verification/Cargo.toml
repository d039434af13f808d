[package]
name = "local_file_explorer"
version = "0.1.0"
edition = "2021"
publish = false

[dependencies]
regex = "1"
serde = { version = "1", features = ["derive"] }
serde_json = "1"
rusqlite = { version = "*", features = ["bundled"] }
walkdir = "2"
uuid = { version = "1", features = ["v4"] }
parking_lot = "0.12"
thiserror = "*"
tiny_http = "0.12"
