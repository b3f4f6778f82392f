[package]
name = "mosh_core"
version = "0.1.0"
edition = "2021"
publish = false

[dependencies]
aead = { version = "0.5", features = ["alloc"] }
aes = "0.8"
ocb3 = "0.1"
base64 = "0.22"
wasm-bindgen = "0.2"
js-sys = "0.3"
console_error_panic_hook = "0.1"

[dev-dependencies]
prost = "0.13"
