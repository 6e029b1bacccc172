[package]
name = "observation_tools"
version = "0.1.0"
edition = "2021"
publish = false

[dependencies]
uuid = { version = "=1.29.1", features = ["v4", "v7"] }
chrono = "=0.4.45"
base64 = "=0.22.1"
hmac = "=0.12.1"
sha2 = "=0.10.9"
serde = { version = "=1.0.229", features = ["derive"] }
serde_json = "=1.0.154"
prost = "=0.13.5"
sled = "=0.34.7"
nom = "=7.1.3"
clap = { version = "=4.6.7", features = ["derive"] }
tokio = { version = "=1.54.1", features = ["rt-multi-thread", "macros", "net"] }
axum = { version = "=0.8.9", features = ["multipart"] }
axum-extra = { version = "=0.10.3", features = ["cookie"] }
anyhow = "=1.0.104"
thiserror = "=2.0.21"
tracing = "=0.1.44"
tracing-subscriber = { version = "=0.3.23", features = ["env-filter"] }
log = "=0.4.35"
rand = "=0.8.8"
directories = "=5.0.1"
pulldown-cmark = "*"
ammonia = "*"
