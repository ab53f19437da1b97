[package]
name = "lisette-highlight"
version = "0.1.0"
edition = "2021"
publish = false

[dependencies]
tower-lsp = "0.20"
