[package]
name = "rusty_input"
version = "0.1.0"
edition = "2021"
publish = false

[dependencies]
libc = "0.2"
nix = { version = "*", features = ["term", "signal", "process", "ioctl"] }
signal-hook = "*"
