[package]
name = "ranker"
version = "0.1.0"
edition = "2021"
publish = false

[dependencies]
arrayvec = "0.7"
regex = "1"
url = "2"
serde = { version = "1", features = ["derive"] }
serde-wasm-bindgen = "*"
wasm-bindgen = "0.2"
console_error_panic_hook = "0.1"
