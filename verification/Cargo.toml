[package]
name = "savi"
version = "0.1.0"
edition = "2021"
publish = false

[dependencies]
aead = "=0.5.2"
aes-gcm-siv = "=0.11.1"
base64 = "=0.23.1"
opus = "=0.2.1"
rand = "=0.10.3"
tokio = { version = "=1.53.2", features = ["rt", "rt-multi-thread", "net", "sync", "macros", "io-util"] }
tokio-tungstenite = "=0.30.0"
futures-channel = "=0.3.34"
futures-util = "=0.3.34"
stunclient = "=0.4.2"
url = "=2.5.8"
