[package]
name = "imbue"
version = "0.1.0"
edition = "2021"
publish = false

[dependencies]
rustc_apfloat = "*"
rocket = { version = "0.5", features = ["json"] }
