[package]
name = "seednet"
version = "0.1.0"
edition = "2021"
publish = false

[dependencies]
anyhow = "1"
async-trait = "0.1"
blake3 = "=1.8.7"
bytes = "=1.12.1"
clap = { version = "4", features = ["derive", "env"] }
crossterm = "0.28"
dashmap = "=6.2.1"
dirs = "=7.0.0"
ed25519-dalek = "=2.2.0"
futures = "0.3"
futures-lite = "=2.6.1"
hkdf = "=0.12.4"
libc = "0.2"
mainline = { version = "=7.0.0", features = ["async"] }
rand = "=0.8.8"
ratatui = "0.29"
reqwest = { version = "0.12", default-features = false, features = ["blocking", "rustls-tls"] }
serde = { version = "1", features = ["derive"] }
serde_bencode = "=0.2.4"
serde_json = "=1.0.154"
sha1 = "=0.10.7"
sha2 = "=0.10.9"
snow = "=0.10.0"
tokio = { version = "1", features = ["full"] }
tokio-tungstenite = "=0.30.0"
tracing = "0.1"
tracing-subscriber = { version = "0.3", features = ["env-filter"] }
tun = { version = "=0.8.14", features = ["async"] }
x25519-dalek = { version = "=2.0.1", features = ["static_secrets"] }

[dev-dependencies]
postcard = { version = "1", features = ["use-std"] }
