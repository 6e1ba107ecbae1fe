[package]
name = "netshaper"
version = "0.1.0"
edition = "2021"
publish = false

[dependencies]
crossbeam-queue = "=0.3.14"
uuid = { version = "=1.29.0", features = ["v4"] }
chrono = { version = "=0.4.45", features = ["serde"] }
base64 = "=0.22.1"
qrcode = { version = "=0.14.1", default-features = false }
rcgen = { version = "=0.12.1", features = ["x509-parser"] }
serde = { version = "=1.0.229", features = ["derive"] }
serde_json = "=1.0.154"
bincode = "=1.3.3"
axum = "=0.7.9"
tokio = { version = "=1.54.1", features = ["full"] }
tower-http = { version = "=0.5.2", features = ["cors"] }
tracing = "=0.1.44"
tracing-subscriber = "=0.3.23"
futures = "=0.3.34"
local-ip-address = "=0.6.13"
thiserror = "=1.0.69"
reqwest = { version = "=0.12.28", default-features = false, features = ["json"] }
