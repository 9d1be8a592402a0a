[package]
name = "qsc_generator"
version = "0.1.0"
edition = "2021"
publish = false

[dependencies]
qrcode = { version = "*", default-features = false }
wasm-bindgen = "*"
js-sys = "*"
web-sys = { version = "*", features = ["Blob", "CanvasRenderingContext2d", "CssStyleDeclaration", "Document", "DocumentFragment", "DomTokenList", "Element", "Event", "EventTarget", "File", "FileList", "FileReader", "HtmlCanvasElement", "HtmlElement", "HtmlInputElement", "Node", "Window", "console"] }
console_error_panic_hook = "*"
axum = "*"
tokio = { version = "*", features = ["macros", "net", "rt-multi-thread"] }
tower-http = { version = "*", features = ["fs"] }
