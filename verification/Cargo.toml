[package]
name = "confmark"
version = "0.0.1"
edition = "2021"
publish = false

[dependencies]
comrak = { version = "*", default-features = false }
percent-encoding = "2"
quick-xml = "*"
clap = { version = "4", features = ["derive"] }
anyhow = "1"
