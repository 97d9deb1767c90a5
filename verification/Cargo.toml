[package]
name = "jeff-control"
version = "0.1.0"
edition = "2021"
publish = false

[dependencies]
clap = { version = "=4.6.7", features = ["derive"] }
layout-rs = { version = "=0.1.3", default-features = false }
libc = "=0.2.191"
notify = "=8.2.1"
petgraph = "=0.8.3"
ratatui = { version = "=0.29.0", default-features = false }
serde = { version = "=1.0.229", features = ["derive"] }
serde_json = "=1.0.154"
signal-hook = "=0.3.18"
