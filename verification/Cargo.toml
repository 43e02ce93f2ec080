[package]
name = "serverkit"
version = "0.3.0"
edition = "2021"
publish = false

[dependencies]
serde = { version = "=1.0.229", features = ["derive"] }
serde_json = "=1.0.154"
hyper = { version = "1", features = ["server", "http1", "http2"] }
hyper-util = { version = "0.1", features = ["tokio", "server", "server-auto"] }
tokio = { version = "1", features = ["rt-multi-thread", "net", "macros"] }
futures-util = { version = "0.3", features = ["sink"] }
tokio-tungstenite = "*"
async-io = "2"
