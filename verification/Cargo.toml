[package]
name = "decipher_zk_tutorial"
version = "0.1.0"
edition = "2021"
publish = false

[dependencies]
plonky2 = "=0.2.2"
anyhow = "1"
rand = "0.8"
serde_json = "1"
