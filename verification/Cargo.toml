[package]
name = "yyn"
version = "0.1.0"
edition = "2021"
publish = false

[dependencies]
anyhow = "=1.0.104"
generational-arena = "=0.2.9"
inkwell = { version = "=0.5.0", default-features = false, features = ["llvm14-0-force-dynamic"] }
itertools = "=0.12.1"
