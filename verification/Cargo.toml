[package]
name = "memoir"
version = "0.1.0"
edition = "2021"
publish = false

[dependencies]
anyhow = "=1.0.104"
ciborium = "=0.2.2"
clap = { version = "=4.6.7", features = ["derive"] }
csv = "=1.4.0"
interprocess = "=1.2.1"
procfs = "=0.15.1"
serde = { version = "=1.0.229", features = ["derive"] }
thiserror = "=1.0.69"
wmi = "*"
