[package]
name = "mtr_rs"
version = "0.3.0"
edition = "2021"
publish = false

[dependencies]
nix = { version = "*", features = ["poll", "fs", "socket", "net", "uio", "user", "process"] }
socket2 = { version = "*", features = ["all"] }
caps = "*"
thiserror = "*"
