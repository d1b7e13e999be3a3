[package]
name = "snake_core"
version = "0.1.0"
edition = "2021"
publish = false

[dependencies]
rand = "*"
wasm-bindgen = "*"
js-sys = "*"
web-sys = { version = "*", features = ["console", "Window", "Document", "Element", "HtmlElement", "HtmlDivElement", "KeyboardEvent", "CssStyleDeclaration", "Node"] }
