[package]
name = "blackbox_parser"
version = "0.1.0"
edition = "2021"
publish = false

[dependencies]
blackbox-log = "=0.4.3"
wasm-bindgen = "=0.2.130"
js-sys = "=0.3.107"
console_error_panic_hook = "0.1"
