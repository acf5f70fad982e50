[package]
name = "tss_lib"
version = "0.1.0"
edition = "2021"
publish = false

[dependencies]
prost = "=0.12.6"
anyhow = "=1.0.104"
serde = { version = "=1.0.229", features = ["derive"] }
serde_json = "=1.0.154"
futures = "=0.3.34"
futures-util = "=0.3.34"
tokio = { version = "=1.54.1", features = ["rt-multi-thread", "macros", "net"] }
tokio-tungstenite = "=0.21.0"
surf = { version = "=2.3.2", default-features = false }
log = "=0.4.35"
round-based = "=0.2.2"
cggmp21 = { version = "=0.2.1", features = ["curve-secp256k1"] }
cggmp21-keygen = "=0.1.0"
key-share = { version = "=0.2.3", features = ["serde"] }
generic-ec = "=0.2.4"
rand = "=0.8.8"
rand_chacha = "=0.3.1"
rand_dev = "=0.1.1"
clap = { version = "=4.6.7", features = ["derive"] }
eyre = "=0.6.14"
