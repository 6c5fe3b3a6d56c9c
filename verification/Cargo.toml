[package]
name = "pty_host"
version = "0.1.0"
edition = "2021"
publish = false

[dependencies]
alacritty_terminal = { version = "0.25", features = ["serde"] }
anyhow = "1"
bincode = "1.3"
env_logger = "0.11"
libc = "0.2"
log = "0.4"
polling = "3"
rustix-openpty = "*"
signal-hook = "0.3"
uuid = { version = "1", features = ["v4"] }
