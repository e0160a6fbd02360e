[package]
name = "tile_editor"
version = "0.1.0"
edition = "2021"
publish = false

[dependencies]
anyhow = "1"
log = "0.4"
serde = { version = "1", features = ["derive", "rc"] }
serde_json = "1"
wasm-bindgen = "0.2"
wasm-logger = "0.2"
web-sys = { version = "0.3", features = ["Element", "DomRect"] }
yew = "0.17"
yew-components = "0.2"
