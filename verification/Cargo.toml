[package]
name = "imp_graph"
version = "0.1.0"
edition = "2021"
publish = false

[dependencies]
force_graph = "*"
serde = { version = "*", features = ["derive"] }
serde_json = "*"
wasm-bindgen = "*"
js-sys = "*"
web-sys = { version = "*", features = ["CanvasRenderingContext2d", "CanvasGradient", "HtmlCanvasElement", "Window", "Document", "Element", "HtmlScriptElement", "MouseEvent", "WheelEvent", "DomRect"] }
