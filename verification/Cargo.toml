[package]
name = "seen_index"
version = "0.1.0"
edition = "2021"
publish = false

[dependencies]
base64 = "=0.23.1"
console_error_panic_hook = "=0.1.7"
futures-util = "=0.3.34"
html-escape = "=0.2.15"
js-sys = "=0.3.106"
serde = { version = "=1.0.229", features = ["derive"] }
serde_json = "=1.0.151"
uuid = { version = "=1.27.0", features = ["v4"] }
vector-lite = "=0.1.12"
wasm-bindgen = "=0.2.129"
worker = { version = "=0.8.7", features = ["d1"] }
