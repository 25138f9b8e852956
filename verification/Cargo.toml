[package]
name = "coinflip"
version = "0.1.0"
edition = "2021"
publish = false

[dependencies]
memchr = "2"
sonic-rs = "*"
serde = { version = "1", features = ["derive"] }
serde_json = "1"
tokio = { version = "1", features = ["full"] }
tokio-util = "0.7"
kanal = "0.1"
reqwest = { version = "0.12", default-features = false, features = ["json", "rustls-tls"] }
tokio-tungstenite = { version = "0.24", features = ["rustls-tls-webpki-roots"] }
futures-util = "0.3"
url = "2"
anyhow = "1"
chrono = { version = "0.4", features = ["serde"] }
regex = "1"
tracing = "0.1"
tracing-subscriber = { version = "0.3", features = ["env-filter"] }
dashmap = "6"
slotmap = "1"
ndarray = "0.16"
ort = "2.0.0-rc.9"
tokenizers = "*"
