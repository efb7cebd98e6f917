[package]
name = "acetone"
version = "0.1.0"
edition = "2021"
publish = false

[dependencies]
efivar = "=2.0.0"
gpt = "=4.1.0"
nix = { version = "=0.31.3", features = ["mount", "process", "reboot"] }
syscalls = "=0.8.1"
uuid = "=1.27.0"
