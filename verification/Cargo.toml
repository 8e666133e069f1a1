[package]
name = "codex-core"
version = "0.1.0"
edition = "2021"
publish = false

[dev-dependencies]
tempfile = "3"
