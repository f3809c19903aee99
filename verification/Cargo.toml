[package]
name = "aqlm"
version = "0.1.0"
edition = "2021"
publish = false

[dependencies]
safetensors = "*"
ndarray = "*"
rand = "*"
anyhow = "*"
futures = "*"
async-trait = "*"
tokio = { version = "*", default-features = false, features = ["sync"] }
tiktoken-rs = "*"
base64 = "*"
rustc-hash = "*"
serde = { version = "*", features = ["derive"] }
serde_json = "*"
