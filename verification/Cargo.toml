[package]
name = "oudia_to_kdl"
version = "0.1.0"
edition = "2021"
publish = false

[dependencies]
kdl = "=6.7.1"
clap = { version = "=4.6.7", features = ["derive"] }
wasm-bindgen = "=0.2.129"
