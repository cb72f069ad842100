[package]
name = "editor_core"
version = "0.1.0"
edition = "2021"
publish = false

[dependencies]
regex = "1"
serde = { version = "1", features = ["derive"] }
syntect = { version = "5", default-features = false, features = ["default-fancy"] }
leptos = { version = "0.8", features = ["csr"] }
web-sys = { version = "0.3", features = ["Document", "DomRect", "Element", "Event", "HtmlElement", "HtmlTextAreaElement", "KeyboardEvent", "MouseEvent", "Window"] }
