[package]
name = "proxy"
version = "0.1.0"
edition = "2021"
publish = false

[dependencies]
base64 = "0.21"
bytes = "1"
http = "0.2"
libc = "0.2"
openssl = "0.10"
pico-args = "0.5"
polling = "3"
rand = "0.8"
regex = "1"
tokio-util = { version = "0.7", features = ["codec"] }
tungstenite = "0.20"
websocket-codec = "0.5"
