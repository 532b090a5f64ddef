[package]
name = "decky_power_host"
version = "0.1.0"
edition = "2021"
publish = false

[dependencies]
hmac = "0.12"
sha2 = "0.10"
hkdf = "0.12"
chacha20poly1305 = "0.10"
spake2 = "0.4"
rand = "0.9"
hex = "0.4"
uuid = { version = "1", features = ["v4"] }
axum = "0.8"
tokio = { version = "1", features = ["full"] }
prost = "0.13"
serde = { version = "1", features = ["derive"] }
serde_json = "1"
toml = "0.8"
tracing = "0.1"
tracing-subscriber = { version = "0.3", features = ["env-filter", "fmt"] }
tracing-appender = "0.2"
anyhow = "1"
thiserror = "2"
hostname = "0.4"
async-trait = "0.1"
windows-service = "0.8"
