[package]
name = "media_catalog"
version = "0.1.0"
edition = "2021"
publish = false

[dependencies]
rusqlite = { version = "=0.40.2", features = ["bundled"] }
serde = { version = "=1.0.229", features = ["derive"] }
serde_json = "=1.0.154"
sha1 = "=0.10.7"
tauri = { version = "2", default-features = false }
tokio = { version = "=1.54.1", features = ["fs", "macros", "process", "rt-multi-thread", "sync"] }
uuid = { version = "=1.29.0", features = ["v4"] }
walkdir = "=2.5.0"
