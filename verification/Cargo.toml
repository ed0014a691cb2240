[package]
name = "wispmq"
version = "0.9.2"
edition = "2021"
publish = false

[dependencies]
bytes = "1"
clap = { version = "4", features = ["derive"] }
futures-util = "0.3"
opentelemetry = "*"
opentelemetry-appender-tracing = "*"
opentelemetry-otlp = { version = "*", default-features = false, features = ["metrics", "logs", "http-proto", "reqwest-blocking-client"] }
opentelemetry_sdk = { version = "*", features = ["metrics", "logs"] }
ring = "0.17"
rusqlite = { version = "*", features = ["bundled"] }
rustls-pemfile = "2"
serde_json = "1"
tokio = { version = "1", features = ["rt-multi-thread", "macros", "net", "io-util", "sync", "time", "signal"] }
tokio-rustls = { version = "0.26", default-features = false, features = ["ring", "tls12", "logging"] }
tokio-tungstenite = "*"
tracing = "0.1"
tracing-subscriber = { version = "0.3", features = ["env-filter"] }
x509-parser = "*"
