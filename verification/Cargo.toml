[package]
name = "pusta"
version = "0.1.0"
edition = "2021"
publish = false

[dependencies]
shellexpand = "=3.1.2"
whoami = "=1.6.1"
anyhow = "=1.0.104"
log = "=0.4.35"
colored = "=2.2.0"
clap = { version = "=4.6.7", features = ["derive"] }
serde = { version = "=1.0.229", features = ["derive"] }
serde_json = "=1.0.154"
serde_yaml = "=0.9.34"
chksum = "=0.4.0"
fs_extra = "=1.3.0"
chrono = "=0.4.45"
uuid = { version = "=1.29.0", features = ["v4"] }
schemars = { version = "1", features = ["derive"] }
