[package]
name = "esvg"
version = "0.1.0"
edition = "2021"
publish = false

[dependencies]
quick-xml = "0.28"
polygonical = "*"
thiserror = "1"
rusttype = "0.9"
font-kit = "*"
