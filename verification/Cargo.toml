[package]
name = "cs120_project"
version = "0.1.0"
edition = "2021"
publish = false

[dependencies]
code-rs = "*"
rand = "0.8"
num-integer = "*"
anyhow = "*"
cpal = "0.15"
rodio = "0.17"
hound = "*"
futures = "*"
tokio = { version = "1", features = ["full"] }
tokio-stream = "*"
tokio-util = "*"
serde = { version = "1", features = ["derive"] }
serde_yaml = "*"
wintun = "*"
pnet = "*"
pnet_transport = "*"
