[package]
name = "tls_relay"
version = "0.1.0"
edition = "2021"
publish = false

[dependencies]
anyhow = "1"
bytes = "1"
futures-util = { version = "0.3", default-features = false, features = ["std"] }
tokio = { version = "1", features = ["io-util", "macros", "net"] }
tokio-util = { version = "0.7", features = ["codec"] }
tracing = "0.1"
