[package]
name = "wormhole_bridge"
version = "0.1.0"
edition = "2021"
publish = false

[dependencies]
near-sdk = { version = "5", features = ["unit-testing"] }
serde = { version = "1", features = ["derive"] }
anchor-lang = { version = "0.29.0", features = ["init-if-needed"] }
wormhole-anchor-sdk = "0.29.0-alpha.1"
