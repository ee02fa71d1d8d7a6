[package]
name = "markdown_tree"
version = "0.1.0"
edition = "2021"
publish = false

[dependencies]
katex = "*"
syntect = "*"
web-sys = { version = "0.3", features = ["MouseEvent"] }
leptos = { version = "0.6", features = ["csr"] }
pulldown-cmark = "*"
