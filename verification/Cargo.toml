[package]
name = "lora_ecla"
version = "0.1.0"
edition = "2021"
publish = false

[dependencies]
bp7 = "*"
priority-queue = "1"
hex = "*"
humantime = "*"
rand = "0.8"
serde = { version = "1", features = ["derive"] }
serde_json = "1"
serde_cbor = "*"
prost = "*"
tokio = { version = "1", features = ["full"] }
tokio-util = "*"
dtn7 = "*"
axum = "0.6"
reqwest = { version = "*", features = ["json", "blocking"] }
tokio-tungstenite = "*"
tungstenite = "*"
futures = "*"
futures-util = "*"
url = "*"
serialport = { version = "*", default-features = false }
clap = { version = "3", features = ["derive", "cargo"] }
log = "*"
pretty_env_logger = "*"
parking_lot = "*"
lazy_static = "*"
anyhow = "*"
async-trait = "*"
base64 = "0.13"
