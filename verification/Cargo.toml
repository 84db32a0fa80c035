[package]
name = "ndt7_client"
version = "0.1.0"
edition = "2021"
publish = false

[dependencies]
url = "2"
rand = { version = "0.9", features = ["small_rng"] }
bytes = "1"
futures-util = "0.3"
tokio = { version = "1", features = ["macros", "rt-multi-thread", "time", "net", "sync"] }
tokio-tungstenite = { version = "0.27", features = ["rustls-tls-webpki-roots"] }
rustls = "0.23"
webpki-roots = "1"
reqwest = { version = "0.12", default-features = false, features = ["rustls-tls"] }
clap = { version = "4", features = ["derive"] }
serde = { version = "1", features = ["derive"] }
serde_json = "1"
