[package]
name = "flocking"
version = "0.1.0"
edition = "2021"
publish = false

[dependencies]
console_error_panic_hook = "=0.1.7"
lazy_static = "=1.5.1"
wasm-bindgen = "=0.2.129"
wasm-bindgen-futures = "=0.4.79"
web-sys = { version = "=0.3.106", features = ["HtmlCanvasElement", "MouseEvent", "EventTarget", "WebGl2RenderingContext"] }
