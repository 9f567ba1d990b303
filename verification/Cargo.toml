[package]
name = "llm-router"
version = "0.1.0"
edition = "2021"
publish = false

[dependencies]
bytes = "1"
http-body-util = "0.1"
hyper = { version = "1", features = ["http1", "server", "client"] }
hyper-rustls = { version = "0.27", default-features = false, features = ["http1", "native-tokio", "ring", "tls12"] }
hyper-util = { version = "0.1", features = ["client", "client-legacy", "http1", "tokio"] }
log = "0.4"
serde_json = "1"
tokio = { version = "1", features = ["net", "rt-multi-thread"] }
toml = "0.9"
