[package]
name = "nomadterm"
version = "0.1.0"
edition = "2021"
publish = false

[dependencies]
rand = "0.8"
uuid = { version = "1", features = ["v4"] }
qrcode = { version = "0.14", default-features = false }
serde = { version = "1", features = ["derive"] }
serde_json = "1"
tokio = { version = "1", features = ["full"] }
axum = { version = "0.8", features = ["ws"] }
futures-util = "0.3"
anyhow = "1"
dirs = "5"
tempfile = "3"
sysinfo = "0.30"
rusqlite = { version = "0.32", features = ["bundled"] }
egui = "0.29"
