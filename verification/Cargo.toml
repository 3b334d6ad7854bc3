[package]
name = "docx_editor"
version = "0.1.0"
edition = "2021"
publish = false

[dependencies]
unicode-segmentation = "1"
zip = { version = "*", default-features = false, features = ["deflate"] }
rusttype = "*"
