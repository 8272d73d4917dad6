[package]
name = "tsuro"
version = "0.1.0"
edition = "2021"
publish = false

[dependencies]
unicode-normalization = "0.1"
pdfium-render = { version = "0.8", default-features = false, features = ["pdfium_latest", "thread_safe"] }
tokio = { version = "1", default-features = false, features = ["rt", "fs", "sync"] }
