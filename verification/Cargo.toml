[package]
name = "automerge_persistent"
version = "0.1.0"
edition = "2021"
publish = false

[dependencies]
automerge = "0.5"
base64 = "0.13"
hex = "0.4"
serde_json = "1"
sled = "0.34"
thiserror = "1"
wasm-bindgen = "0.2"
web-sys = { version = "0.3", features = ["Storage", "Window"] }
