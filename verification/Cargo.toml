[package]
name = "hl_rust_core"
version = "0.1.0"
edition = "2021"
publish = false

[dependencies]
uuid = { version = "*", features = ["v4"] }
tokio = { version = "*", features = ["full"] }
tokio-util = "*"
notify = "*"
reqwest = { version = "*", default-features = false, features = ["json"] }
serde = { version = "*", features = ["derive"] }
sonic-rs = "*"
rmp-serde = "*"
anyhow = "*"
bytes = "*"
tracing = "*"
tracing-subscriber = "*"
zeromq = "*"
