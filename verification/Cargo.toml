[package]
name = "vshot"
version = "0.1.0"
edition = "2021"
publish = false

[dependencies]
clap = { version = "=4.6.7", features = ["derive", "string"] }
memmap2 = "=0.9.12"
rustix = { version = "=1.1.6", features = ["event", "fs", "mm", "pipe", "process"] }
serde_json = { version = "=1.0.154", features = ["raw_value"] }
tempfile = "=3.27.0"
wayland-client = "=0.31.15"
wayland-protocols = { version = "=0.32.13", features = ["client", "staging", "unstable"] }
wayland-protocols-wlr = { version = "=0.3.12", features = ["client"] }
zbus = { version = "=5.19.0", features = ["blocking-api"] }
