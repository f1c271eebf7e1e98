[package]
name = "aipg"
version = "0.3.0"
edition = "2021"
publish = false

[dependencies]
rand = "=0.9.5"
sha2 = "=0.10.9"
aes-gcm = "=0.10.3"
flate2 = "=1.1.10"
serde = { version = "=1.0.229", features = ["derive"] }
serde_json = "=1.0.154"
serde_yaml = "=0.9.34"
clap = { version = "=4.6.7", features = ["derive"] }
tokio = { version = "=1.54.1", features = ["rt-multi-thread", "macros", "net", "time", "sync"] }
axum = "=0.8.9"
tower-http = { version = "=0.6.11", features = ["fs"] }
reqwest = { version = "=0.12.28", default-features = false, features = ["json"] }
dirs = "=6.0.0"
base64 = "=0.22.1"
rusqlite = { version = "=0.37.0", features = ["bundled"] }
auto-launch = "*"
tray-icon = "*"
image = { version = "*", default-features = false, features = ["png"] }
