[package]
name = "krilla"
version = "0.1.0"
edition = "2021"
publish = false

[dependencies]
miniz_oxide = "*"
pdf-writer = "*"
siphasher = "*"
skrifa = "*"
tiny-skia-path = "*"
usvg = { version = "*", default-features = false }
xmp-writer = "*"
