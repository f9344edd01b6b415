[package]
name = "pdfpages"
version = "0.1.0"
edition = "2021"
publish = false

[dependencies]
anyhow = "*"
pico-args = "*"
image = { version = "*", default-features = false, features = ["jpeg"] }
cairo-rs = { version = "*", default-features = false, features = ["svg"] }
gio = "*"
poppler-rs = "*"
