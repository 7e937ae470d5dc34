[package]
name = "querytrans"
version = "0.1.0"
edition = "2021"
publish = false

[dependencies]
opencc-rust = "*"
clap = { version = "*", features = ["derive"] }
eyre = "*"
jieba-rs = "*"
postgres = "*"
pyo3 = "*"
tracing = "*"
tracing-subscriber = { version = "*", features = ["env-filter"] }
