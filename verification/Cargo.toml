[package]
name = "battleship"
version = "0.1.0"
edition = "2021"
publish = false

[dependencies]
byteorder = "=1.5.0"
serde = { version = "=1.0.229", features = ["derive"] }
bincode = "=1.3.3"
anyhow = "=1.0.104"
async-std = "=1.13.2"
async-stream = "=0.3.6"
futures = "=0.3.34"
crossterm = "=0.27.0"
uuid = { version = "=1.29.0", features = ["v4"] }
log = "=0.4.35"
pretty_env_logger = "=0.5.0"
dotenv = "=0.15.0"
rand = "=0.8.8"
daemonize = "0.5"
