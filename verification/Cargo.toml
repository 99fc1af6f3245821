[package]
name = "httprs"
version = "0.1.0"
edition = "2021"
publish = false

[dependencies]
flate2 = "1"
log = "0.4"
nix = { version = "0.29", features = ["signal", "process", "socket", "net", "time"] }
clap = { version = "4", features = ["derive"] }
colog = "1"
env_logger = "0.11"
