[package]
name = "quickshare"
version = "0.1.0"
edition = "2021"
publish = false

[dependencies]
gloo = "*"
gloo-net = "*"
js-sys = "*"
serde = { version = "*", features = ["derive"] }
serde_json = "*"
wasm-bindgen = "*"
wasm-bindgen-futures = "*"
web-sys = { version = "*", features = ["Blob", "Clipboard", "Document", "Element", "Event", "EventTarget", "File", "FileList", "FormData", "HtmlElement", "HtmlInputElement", "MouseEvent", "Navigator", "Storage", "Url", "Window"] }
yew = { version = "*", features = ["csr"] }
