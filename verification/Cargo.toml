[package]
name = "daily_report"
version = "0.1.0"
edition = "2021"
publish = false

[dependencies]
base64 = "0.22"
serde_json = "1"
pdf-writer = "*"
wasm-bindgen = "0.2"
js-sys = "0.3"
web-sys = { version = "0.3", features = ["Window", "Document", "Element", "NodeList", "Node", "HtmlElement", "HtmlInputElement", "HtmlSelectElement", "HtmlTextAreaElement", "HtmlAnchorElement", "FileReader", "FileList", "File", "Blob", "BlobPropertyBag", "Url", "Storage", "Event", "EventTarget"] }
