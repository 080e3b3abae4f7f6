[package]
name = "epserde"
version = "0.1.0"
edition = "2021"

[dependencies]
xxhash-rust = { version = "*", features = ["xxh3"] }
mmap-rs = "*"
anyhow = "*"
