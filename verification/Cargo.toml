[package]
name = "histop"
version = "0.1.0"
edition = "2021"
publish = false

[dependencies]
ahash = "0.8"
bstr = { version = "1", default-features = false, features = ["std"] }
memmap2 = "0.9"
