[package]
name = "entrotunnel"
version = "1.2.0"
edition = "2021"
publish = false

[dependencies]
anyhow = "1"
async-trait = "0.1"
axum = "0.7"
base64 = "=0.22.1"
bincode = "=1.3.3"
clap = { version = "4", features = ["derive"] }
dashmap = "=6.2.1"
futures = "0.3"
ipnet = { version = "=2.12.2", features = ["serde"] }
jni = "0.21"
libc = "0.2"
quinn = { version = "0.11", default-features = false, features = ["runtime-tokio", "rustls", "ring"] }
rand = "=0.8.8"
rcgen = { version = "=0.13.2", default-features = false, features = ["pem", "ring"] }
rustls = { version = "0.23", default-features = false, features = ["ring", "std", "tls12", "logging"] }
rustls-pemfile = "=2.2.0"
serde = { version = "1", features = ["derive"] }
serde_json = "1"
snow = "=0.9.6"
thiserror = "1"
tokio = { version = "1", features = ["full"] }
tokio-rustls = { version = "0.26", default-features = false, features = ["ring", "tls12", "logging"] }
tokio-tungstenite = "0.24"
tokio-util = "0.7"
toml = "=0.8.23"
tracing = "0.1"
tracing-subscriber = { version = "0.3", features = ["env-filter"] }
uuid = { version = "=1.29.0", features = ["v4", "serde"] }
webpki-roots = "0.26"
