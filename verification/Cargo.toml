[package]
name = "rsticulum"
version = "0.1.0"
edition = "2021"
publish = false

[dependencies]
aes = "=0.8.4"
async-trait = "=0.1.92"
bincode = "=1.3.3"
blake3 = "=1.8.7"
cbc = { version = "=0.1.2", features = ["alloc", "block-padding"] }
ed25519-dalek = { version = "=2.2.0", features = ["rand_core"] }
getrandom = "=0.2.17"
hex = "=0.4.3"
hkdf = "=0.12.4"
hmac = "=0.12.1"
lru = "=0.12.5"
rand = "=0.8.8"
serde = { version = "=1.0.229", features = ["derive"] }
serde_bytes = "0.11"
serde_json = "=1.0.154"
serialport = { version = "=4.10.1", default-features = false }
sha2 = "=0.10.9"
thiserror = "=1.0.69"
tokio = { version = "=1.54.1", features = ["full"] }
toml = "=0.8.23"
tracing = "=0.1.44"
tracing-subscriber = { version = "=0.3.23", features = ["env-filter"] }
x25519-dalek = { version = "=2.0.1", features = ["static_secrets"] }
zeroize = "=1.9.1"
