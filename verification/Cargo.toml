[package]
name = "arch_installer"
version = "0.1.0"
edition = "2021"
publish = false

[dependencies]
anyhow = "*"
clap = { version = "*", features = ["derive"] }
dirs = "*"
infer = "*"
nix = { version = "*", features = ["user"] }
tar = "*"
tempfile = "*"
walkdir = "*"
zstd = "*"
