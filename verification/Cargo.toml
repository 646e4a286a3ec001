[package]
name = "snake_web_client"
version = "0.1.0"
edition = "2021"
publish = false

[dependencies]
serde = { version = "1", features = ["derive"] }
serde_json = "1"
rmp-serde = "1"
wasm-bindgen = "0.2"
js-sys = "0.3"
web-sys = { version = "0.3", features = ["Window", "Document", "Element", "HtmlElement", "CssStyleDeclaration", "WebSocket", "MessageEvent", "BinaryType", "Event", "Node"] }
log = "0.4"
console_log = "1"
console_error_panic_hook = "0.1"
thiserror = "2"

[dev-dependencies]
rmp = "0.8"
