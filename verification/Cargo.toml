[package]
name = "agent-run"
version = "0.1.0"
edition = "2021"
publish = false

[dependencies]
anyhow = "=1.0.104"
clap = { version = "=4.6.7", features = ["derive"] }
libc = "=0.2.191"
nix = { version = "=0.30.1", features = ["fs", "process", "signal", "user"] }
serde = "=1.0.229"
shellexpand = "=3.1.2"
thiserror = "=2.0.21"
toml = "=0.9.12"
