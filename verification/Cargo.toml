[package]
name = "snow_storage"
version = "0.1.0"
edition = "2021"
publish = false

[dependencies]
base64 = "0.22"
blake3 = "1"
chrono = "0.4"
napi = "3"
napi-derive = "3"
reflink = "0.1"
regex = "1"
rusqlite = { version = "*", features = ["bundled", "backup"] }
serde = { version = "1", features = ["derive"] }
serde_json = "1"
similar = "2"
tokio = { version = "1", features = ["sync"] }
uuid = { version = "1", features = ["v4"] }
