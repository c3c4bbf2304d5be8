[package]
name = "centinel_core"
version = "0.1.0"
edition = "2021"
publish = false

[dependencies]
url = "2"
base64 = "0.22"
serde = { version = "1", features = ["derive"] }
serde_json = "1"
anyhow = "1"
jiff = "*"
tokio = { version = "1", features = ["sync", "rt", "macros", "time"] }
