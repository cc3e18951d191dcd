[package]
name = "simple_socket"
version = "0.1.0"
edition = "2021"
publish = false

[dependencies]
serde = "1"
serde_json = "1"
tokio = { version = "1", features = ["full"] }
tokio-tungstenite = "*"
futures = "0.3"
url = "2"
async-trait = "0.1"
