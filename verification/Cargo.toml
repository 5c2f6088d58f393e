[package]
name = "beng_leecher"
version = "0.1.0"
edition = "2021"
publish = false

[dependencies]
axum = "0.8"
regex = "1"
reqwest = { version = "0.12", default-features = false, features = ["charset", "http2", "rustls-tls-manual-roots-no-provider"] }
rustls = { version = "0.23", default-features = false, features = ["logging", "ring", "std", "tls12"] }
serde = { version = "1", features = ["derive"] }
serde_json = "1"
tokio = { version = "1", features = ["fs", "io-util", "macros", "net", "process", "rt-multi-thread", "time"] }
tokio-util = { version = "0.7", features = ["io"] }
webpki-roots = "1"
