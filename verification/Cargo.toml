[package]
name = "dgc_contract"
version = "0.1.0"
edition = "2021"
publish = false

[dependencies]
rust-crypto = "0.2"
validator = "0.8"
validator_derive = "0.8"
hex = "0.3"
serde = { version = "1", features = ["derive"] }
serde_json = "1"
hyper = "0.11"
tokio-core = "0.1"
futures = "0.1"
protobuf = "2"
sawtooth-sdk = "*"
rocket = "0.4"
rocket_contrib = "0.4"
dotenv = "0.15"
