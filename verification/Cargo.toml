[package]
name = "seqdiagram"
version = "0.1.0"
edition = "2021"
publish = false

[dependencies]
textwrap = "0.16"
cassowary = "0.3"
rusttype = "0.9"
svg = "*"
wasm-bindgen = "0.2"
web-sys = { version = "0.3", features = ["Window", "Document", "NodeList", "Node", "Element", "HtmlElement"] }
