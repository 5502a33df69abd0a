[package]
name = "pvpc_cheap"
version = "0.1.0"
edition = "2021"
publish = false

[dependencies]
md5 = "0.7"
rand = "0.9"
uuid = { version = "1", features = ["v4"] }
serde = { version = "1", features = ["derive"] }
serde_json = "1"
chrono = "0.4"
tokio = { version = "1", features = ["rt-multi-thread", "macros", "time", "sync"] }
rumqttc = "0.24"
reqwest = { version = "0.12", default-features = false, features = ["json", "rustls-tls"] }
tokio-rustls = "0.26"
rustls-native-certs = "0.8"
