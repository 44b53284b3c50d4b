[package]
name = "rwmem"
version = "0.1.0"
edition = "2021"
publish = false

[dependencies]
bitvec = "*"
nix = { version = "*", features = ["ioctl", "fs", "uio", "process"] }
libc = "*"
tokio = { version = "*", features = ["rt", "net"] }
clap = { version = "*", features = ["derive"] }
clap-num = "*"
hex = "*"
anyhow = "*"
pretty-hex = "*"
shellish_parse = "*"
