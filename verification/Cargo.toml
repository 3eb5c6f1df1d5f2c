[package]
name = "pwalarmd"
version = "0.1.0"
edition = "2021"
publish = false

[dependencies]
chrono = "0.4"
crc32fast = "1"
clap = { version = "*", features = ["derive"] }
colored = "*"
daemonize = "*"
libc = "*"
notify-rust = "*"
rodio = "*"
serde = { version = "*", features = ["derive"] }
shellexpand = "*"
toml = "*"
