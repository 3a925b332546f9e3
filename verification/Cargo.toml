[package]
name = "refractium"
version = "0.1.0"
edition = "2021"
publish = false

[dependencies]
memchr = "2"
heck = "0.5"
colored = "*"
tokio-util = "0.7"
tokio = { version = "1", features = ["full"] }
bytes = "1"
dashmap = "6"
dyn-clone = "1"
serde = { version = "1", features = ["derive"] }
toml = "0.8"
clap = { version = "4", features = ["derive"] }
anyhow = "1"
thiserror = "2"
notify = "*"
tracing = "0.1"
tracing-subscriber = "0.3"
