[package]
name = "udp-forward"
version = "0.1.0"
edition = "2021"
publish = false

[dependencies]
anyhow = "1"
clap = { version = "4", features = ["derive"] }
env_logger = "0.11"
libc = "0.2"
log = "0.4"
nix = { version = "0.30", features = ["net", "socket", "uio"] }
num_cpus = "1"
pnet_packet = "0.35"
socket2 = { version = "0.6", features = ["all"] }
