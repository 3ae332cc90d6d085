[package]
name = "board_client"
version = "0.1.0"
edition = "2021"
publish = false

[dependencies]
indexmap = "=2.14.2"
yew = "=0.17.4"
web-sys = { version = "0.3", features = ["Window", "Document", "Location", "History", "Element", "HtmlElement", "DomRect", "Event", "EventTarget", "MouseEvent"] }
wasm-bindgen = "0.2"
wasm-bindgen-futures = "0.4"
uuid = "1"
serde = { version = "1", features = ["derive"] }
log = "0.4"
futures = "0.3"
console_error_panic_hook = "0.1"
wasm-logger = "0.2"
