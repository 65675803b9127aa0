[package]
name = "pixel_shuffle"
version = "0.1.0"
edition = "2021"
publish = false

[dependencies]
num = "0.4"
serde = { version = "1", features = ["derive"] }
serde-wasm-bindgen = "0.6"
wasm-bindgen = "0.2"
wasm-bindgen-futures = "0.4"
js-sys = "0.3"
console_error_panic_hook = "0.1"
web-sys = { version = "0.3", features = ["AddEventListenerOptions", "Blob", "CanvasRenderingContext2d", "DedicatedWorkerGlobalScope", "Document", "Element", "Event", "EventTarget", "File", "FileList", "FileReader", "HtmlCanvasElement", "HtmlElement", "HtmlImageElement", "HtmlInputElement", "ImageData", "MessageEvent", "Node", "Window", "Worker", "WorkerGlobalScope"] }
