[package]
name = "miden_core"
version = "0.1.0"
edition = "2021"
publish = false

[dependencies]
winter-crypto = "0.4"
winter-math = "0.4"
hex = "0.4"
serde = { version = "1", features = ["derive"] }
serde_json = "1"

[dev-dependencies]
winter-rand-utils = "0.4"
