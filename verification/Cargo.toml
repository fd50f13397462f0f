[package]
name = "qexp"
version = "0.1.1"
edition = "2021"
publish = false

[dependencies]
quvyta-framework = { version = "=0.1.35", features = ["updates"] }
