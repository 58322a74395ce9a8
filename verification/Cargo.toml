[package]
name = "deskcraft"
version = "0.1.0"
edition = "2021"
publish = false

[dependencies]
anyhow = "*"
chrono = "*"
hostname = "*"
regex = "*"
rusqlite = { version = "*", features = ["bundled"] }
serde = { version = "*", features = ["derive"] }
serde_json = "*"
sha2 = "*"
uuid = { version = "*", features = ["v4"] }
