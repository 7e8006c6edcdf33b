[package]
name = "cdc_chunking"
version = "0.1.0"
edition = "2021"
publish = false

[dependencies]
wasm-bindgen = "*"
js-sys = "*"

[dev-dependencies]
fastcdc = "1"
