[package]
name = "url_encoding"
version = "0.1.0"
edition = "2021"
publish = false

[dev-dependencies]
urlencoding = "2"
