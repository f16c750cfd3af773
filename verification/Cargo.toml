[package]
name = "dns_recursor"
version = "0.1.0"
edition = "2021"
publish = false

[dependencies]
moka = { version = "0.12", features = ["sync"] }
ipnet = "2"
hickory-proto = "0.25"
hickory-resolver = "0.25"
hickory-recursor = "0.25"
hickory-server = "0.25"
tokio = { version = "1", features = ["rt-multi-thread", "macros", "net", "time"] }
async-trait = "0.1"
anyhow = "1"
serde = { version = "1", features = ["derive"] }
toml = "0.8"
tracing = "0.1"
tracing-subscriber = { version = "0.3", features = ["env-filter"] }
