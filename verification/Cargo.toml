[package]
name = "cst_view"
version = "0.1.0"
edition = "2021"
publish = false

[dependencies]
ra_ap_syntax = "=0.0.320"
wasm-bindgen = "=0.2.129"
js-sys = "=0.3.106"
