[package]
name = "svg2pdf"
version = "0.1.0"
edition = "2021"
publish = false

[dependencies]
usvg = { version = "*", default-features = false }
pdf-writer = "*"
