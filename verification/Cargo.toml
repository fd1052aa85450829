[package]
name = "scriptkeeper"
version = "0.1.0"
edition = "2021"
publish = false

[dependencies]
regex = "*"
nix = { version = "*", features = ["ptrace", "process", "signal", "fs"] }
libc = "*"
yaml-rust = "*"
tempdir = "*"
linked-hash-map = "*"
