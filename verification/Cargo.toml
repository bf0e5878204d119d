[package]
name = "mesagisto"
version = "0.1.0"
edition = "2021"
publish = false

[dependencies]
aes-gcm-siv = "*"
sha2 = "*"
uuid = { version = "*", features = ["v4", "v5"] }
base64-url = "*"
rand = "*"
sled = "*"
url = "*"
tokio = { version = "*", features = ["rt", "rt-multi-thread", "sync", "time", "fs", "macros", "io-util"] }
tokio-tungstenite = "*"
futures-util = "*"
reqwest = { version = "*", default-features = false }

[dev-dependencies]
ciborium = "*"
