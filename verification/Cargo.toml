[package]
name = "sketch_kernel"
version = "0.1.0"
edition = "2021"
publish = false

[dependencies]
js-sys = "*"
sodium-rust = "*"
wasm-bindgen = "*"
