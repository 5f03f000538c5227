[package]
name = "mc_world"
version = "0.1.0"
edition = "2021"
publish = false

[dependencies]
fastanvil = { version = "=0.32.0", default-features = false }
fastnbt = "=2.6.3"
glob-match = "=0.2.1"
wasm-bindgen = "=0.2.129"
js-sys = "=0.3.106"
serde-wasm-bindgen = "=0.6.5"
console_error_panic_hook = "=0.1.7"
web-sys = { version = "=0.3.106", features = ["console"] }
instant = "=0.1.13"
