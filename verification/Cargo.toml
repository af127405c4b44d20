[package]
name = "sharun_compat"
version = "0.1.0"
edition = "2021"
publish = false

[dependencies]
goblin = "*"
nix = { version = "*", features = ["process", "ptrace", "signal"] }
