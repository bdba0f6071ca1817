[package]
name = "schedulerutils"
version = "0.1.0"
edition = "2021"
publish = false

[dependencies]
anyhow = "1"
cgroups-rs = "0.3"
clap = { version = "4", features = ["derive"] }
libc = "0.2"
nix = { version = "0.29", features = ["process", "signal"] }
palaver = "*"
procfs = "*"
rand = "0.8"
wait-timeout = "0.2"
