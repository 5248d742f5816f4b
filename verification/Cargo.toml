[package]
name = "pystaleds"
version = "0.1.0"
edition = "2021"
publish = false

[dependencies]
anyhow = "*"
clap = { version = "*", features = ["derive"] }
glob = "*"
rayon = "*"
tracing = "*"
tracing-appender = "*"
tracing-subscriber = "*"
tree-sitter = "*"
tree-sitter-python = "*"
walkdir = "*"
