[package]
name = "coedit"
version = "0.1.0"
edition = "2021"
publish = false

[dependencies]
pandoc_types = "*"
serde = { version = "1", features = ["derive"] }
serde_json = "1"
tempdir = "0.3"
