[package]
name = "litecoin_mweb"
version = "0.1.0"
edition = "2021"
publish = false

[dependencies]
secp256k1 = "0.29"
bitcoin-io = "0.1"
