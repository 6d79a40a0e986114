[package]
name = "ruffbox-scheduler"
version = "0.1.0"
edition = "2021"
publish = false

[dependencies]
stdweb = "0.4.20"
wasm-bindgen = "0.2"
web-sys = { version = "0.3", features = ["console"] }
