[package]
name = "portix_serv"
version = "0.1.0"
edition = "2021"
publish = false

[dependencies]
anyhow = "1"
base64 = "0.22"
bytes = "1"
flutter_rust_bridge = "2"
once_cell = "1"
parking_lot = "0.12"
russh = { version = "0.54", default-features = false, features = ["ring", "flate2", "rsa"] }
serde = { version = "1", features = ["derive"] }
serde_json = "1"
tokio = { version = "1", features = ["rt-multi-thread", "macros", "net", "io-util", "time", "sync"] }
tokio-rustls = { version = "0.26", default-features = false, features = ["ring", "tls12", "logging"] }
uuid = { version = "1", features = ["v4"] }
