[package]
name = "openfocus"
version = "0.1.0"
edition = "2021"
publish = false

[dependencies]
chrono = "*"
colored = "*"
rand = "*"
xml-rs = "*"
zip = { version = "*", default-features = false, features = ["deflate"] }
