[package]
name = "entity"
version = "0.1.0"
edition = "2021"
publish = false

[dependencies]
multiversx-sc = "=0.52.3"
multiversx-sc-scenario = "=0.52.3"
multiversx-sc-wasm-adapter = "=0.52.3"

[dev-dependencies]
ed25519-dalek = "=1.0.1"
