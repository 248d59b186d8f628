[package]
name = "rust-vanity"
version = "0.1.0"
edition = "2021"
publish = false

[dependencies]
sha2 = "0.10"
five8 = "*"
wasm-bindgen = "0.2"
console_error_panic_hook = "0.1"
