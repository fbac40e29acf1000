[package]
name = "markup_tree"
version = "0.1.0"
edition = "2021"
publish = false

[dependencies]
html5ever = "=0.27.0"
xml5ever = "=0.18.1"

[dev-dependencies]
markup5ever_rcdom = "=0.3.0"
