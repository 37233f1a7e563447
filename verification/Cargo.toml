[package]
name = "deet"
version = "0.1.0"
edition = "2021"
publish = false

[dependencies]
nix = { version = "*", features = ["ptrace", "signal", "process"] }
rustyline = "*"
clap = { version = "*", features = ["derive"] }
http = "*"
log = "*"
pretty_env_logger = "*"
rand = "*"
tokio = { version = "*", features = ["full"] }
crossbeam-channel = "*"
