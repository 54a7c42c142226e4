[package]
name = "deepseek-engine"
version = "0.1.0"
edition = "2021"
publish = false

[dependencies]
anyhow = "1"
cuda-core = "*"
memmap2 = "0.9"
regex = "1"
rustyline = "*"

[dev-dependencies]
half = "2"
