[package]
name = "acvm_js"
version = "0.1.0"
edition = "2021"
publish = false

[dependencies]
acvm = "0.16"
console_error_panic_hook = "=0.1.7"
gloo-utils = { version = "=0.1.7", features = ["serde"] }
js-sys = "=0.3.106"
serde = { version = "=1.0.229", features = ["derive"] }
wasm-bindgen = { version = "=0.2.129", features = ["serde-serialize"] }
wasm-bindgen-futures = "=0.4.79"
