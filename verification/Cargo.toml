[package]
name = "todo_core"
version = "0.1.0"
edition = "2021"
publish = false

[dependencies]
yew = { version = "*", features = ["csr"] }
gloo = "*"
web-sys = { version = "*", features = ["HtmlInputElement", "HtmlElement", "Element", "Node", "EventTarget", "Window", "Storage", "FocusEvent", "KeyboardEvent"] }
