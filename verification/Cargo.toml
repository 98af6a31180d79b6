[package]
name = "predictive_text"
version = "0.1.0"
edition = "2021"
publish = false

[dependencies]
strsim = "0.11"
rmp-serde = "1"
serde = { version = "1", features = ["derive"] }
wasm-bindgen = "0.2"
serde-wasm-bindgen = "0.6"
lazy_static = "1"
