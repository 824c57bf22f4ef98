[package]
name = "ddns_core"
version = "0.1.0"
edition = "2021"
publish = false

[dependencies]
anyhow = "*"
async-trait = "*"
axum = "*"
base64 = "*"
chrono = "*"
clap = { version = "*", features = ["derive", "env"] }
config = { version = "*", default-features = false, features = ["toml"] }
cron = "*"
futures-core = "*"
hmac = "*"
jsonwebtoken = "*"
once_cell = "*"
parking_lot = "*"
percent-encoding = "*"
pnet_datalink = "*"
reqwest = { version = "*", default-features = false, features = ["json"] }
serde = { version = "*", features = ["derive"] }
serde_json = "*"
sha1 = "*"
thiserror = "*"
tokio = { version = "*", features = ["full"] }
tokio-cron-scheduler = "*"
tokio-stream = { version = "*", features = ["sync"] }
toml = "*"
tracing = "*"
tracing-subscriber = { version = "*", features = ["env-filter", "fmt"] }
uuid = { version = "*", features = ["v4"] }
validator = { version = "*", features = ["derive"] }
