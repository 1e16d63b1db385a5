[package]
name = "markdown_render"
version = "0.1.0"
edition = "2021"
publish = false

[dependencies]
pulldown-cmark = "*"
wasm-bindgen = "*"
console_error_panic_hook = "*"
