[package]
name = "weighted_kad"
version = "0.1.0"
edition = "2021"
publish = false

[dependencies]
fnv = "1.0"
prometheus = { version = "0.11", default-features = false }
wasm-timer = "0.2"
