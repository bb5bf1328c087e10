[package]
name = "ouli"
version = "0.1.0"
edition = "2021"
publish = false

[dependencies]
sha2 = "*"
crc32fast = "*"
urlencoding = "*"
serde = { version = "*", features = ["derive"] }
toml = "*"
tokio = { version = "*", features = ["full"] }
hyper = { version = "*", features = ["full"] }
hyper-util = { version = "*", features = ["full"] }
http-body-util = "*"
futures-util = "*"
tokio-tungstenite = "*"
tracing = "*"
memmap2 = "*"
