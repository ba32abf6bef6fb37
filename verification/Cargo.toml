[package]
name = "rustp2p"
version = "0.1.0"
edition = "2021"
publish = false

[dependencies]
dns-parser = "*"
rust-p2p-core = "*"
tokio = { version = "*", features = ["net", "time", "rt", "io-util"] }
async-trait = "*"
anyhow = "*"
bytes = "*"
