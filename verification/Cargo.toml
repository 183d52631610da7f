[package]
name = "rust_socketio"
version = "0.1.0"
edition = "2021"
publish = false

[dependencies]
bytes = "1"
crossbeam-utils = "0.8"
futures-util = "0.3"
native-tls = "0.2"
rand = "0.8"
reqwest = { version = "0.11", features = ["blocking", "native-tls"] }
rust-crypto = "0.2"
serde = { version = "1", features = ["derive"] }
serde_json = "1"
tokio = { version = "1", features = ["full"] }
tokio-tungstenite = { version = "0.18", features = ["native-tls"] }
tungstenite = "0.18"
