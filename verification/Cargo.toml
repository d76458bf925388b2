[package]
name = "staking"
version = "0.1.0"
edition = "2021"
publish = false

[dependencies]
multiversx-sc = "=0.66.2"

[dev-dependencies]
multiversx-sc-scenario = "=0.66.2"
