[package]
name = "epub_rs"
version = "0.1.0"
edition = "2021"
publish = false

[dependencies]
percent-encoding = "2"
base64 = "0.22"
quick-xml = "*"
regex = "1"
lol_html = "*"
kuchikiki = "*"
zip = { version = "*", default-features = false, features = ["deflate"] }
serde = { version = "1", features = ["derive"] }
