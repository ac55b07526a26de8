[package]
name = "server_power_monitor"
version = "0.2.0"
edition = "2021"
publish = false

[dependencies]
anyhow = "1"
bincode = "1"
chacha20poly1305 = "0.10"
chrono = "0.4"
reqwest = { version = "0.12", default-features = false, features = ["rustls-tls"] }
rumqttc = "0.24"
serde = { version = "1", features = ["derive"] }
serde_json = "1"
tokio = { version = "1", features = ["full"] }
