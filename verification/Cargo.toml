[package]
name = "gos3lih"
version = "0.1.0"
edition = "2021"
publish = false

[dependencies]
dashmap = "6"
pnet = "0.35"
serde = { version = "1", features = ["derive"] }
serde_json = "1"
tokio = { version = "1", features = ["full"] }
tracing = "0.1"
tracing-subscriber = { version = "0.3", features = ["env-filter"] }
anyhow = "1"
parking_lot = "0.12"
interprocess = { version = "2", features = ["tokio"] }
reqwest = { version = "0.12", default-features = false, features = ["json", "rustls-tls"] }
zip = { version = "2", default-features = false, features = ["deflate"] }
windivert = "*"
windows-service = "*"
windows-sys = { version = "*", features = ["Win32_System_Threading"] }
