[package]
name = "ethereum_amount"
version = "0.1.0"
edition = "2021"
publish = false

[dependencies]
web3 = { version = "*", default-features = false }
