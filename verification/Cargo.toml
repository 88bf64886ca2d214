[package]
name = "roma"
version = "0.1.0"
edition = "2021"
publish = false

[dependencies]
env_logger = "0.10"
libc = "0.2"
log = "0.4"
memmap2 = "0.9"
nix = "0.26"
rand = "0.8"
socket2 = "0.5"
