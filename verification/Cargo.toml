[package]
name = "pdf_secure"
version = "0.1.0"
edition = "2021"
publish = false

[dependencies]
chacha20poly1305 = "*"
hex = "*"
image = "*"
pdfium-render = "*"
show-image = "*"
