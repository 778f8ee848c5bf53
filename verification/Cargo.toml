[package]
name = "bfjit"
version = "0.1.0"
edition = "2021"
publish = false

[dependencies]
anyhow = "=1.0.104"
clap = { version = "=4.6.7", features = ["derive"] }
cranelift = "=0.135.5"
cranelift-jit = "=0.135.5"
cranelift-module = "=0.135.5"
cranelift-native = "=0.135.5"
inkwell = { version = "=0.10.0", features = ["llvm14-0-force-dynamic"] }
quanta = "=0.13.0"
