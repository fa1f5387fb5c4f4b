[package]
name = "quadstore"
version = "0.1.0"
edition = "2021"
publish = false

[dependencies]
md5 = "0.7"
rand = "0.8"
wasm-bindgen = "0.2"
js-sys = "0.3"
