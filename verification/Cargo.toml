[package]
name = "rustrecom"
version = "0.1.0"
edition = "2021"
publish = false

[dependencies]
binary-ensemble = "*"
clap = "4"
crossbeam = "0.8"
crossbeam-channel = "0.5"
indicatif = "*"
mimalloc = "*"
pcompress = "*"
petgraph = "*"
rand = "0.9"
serde = { version = "1", features = ["derive"] }
serde_json = "1"
sha3 = "0.10"
