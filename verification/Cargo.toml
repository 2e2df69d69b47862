[package]
name = "cmdhub"
version = "0.1.0"
edition = "2021"
publish = false

[dependencies]
uuid = { version = "=1.27.0", features = ["v4"] }
tokio = { version = "=1.53.2", features = ["full"] }
warp = { version = "=0.4.3", features = ["server", "websocket"] }
futures = "=0.3.34"
futures-util = "=0.3.34"
tokio-tungstenite = "=0.30.0"
url = "=2.5.8"
