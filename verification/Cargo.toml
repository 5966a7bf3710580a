[package]
name = "nomic"
version = "0.1.0"
edition = "2021"
publish = false

[dependencies]
bech32 = "=0.9.1"
bitcoin = "=0.28.2"
csv = "=1.4.0"
ed = "=0.2.2"
