[package]
name = "decoder"
version = "0.1.0"
edition = "2021"
publish = false

[dependencies]
aes = "0.8"
blake3 = { version = "1", default-features = false }
cortex-m = "0.7"
crypto-bigint = { version = "0.6", default-features = false }
ed25519-dalek = { version = "2", default-features = false, features = ["digest"] }
embedded-alloc = "*"
max7800x-hal = "*"
ofb = "0.6"
