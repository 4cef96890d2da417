[package]
name = "grr"
version = "0.1.0"
edition = "2021"
publish = false

[dependencies]
regex = "=1.13.1"
xot = "=0.31.2"
serde = { version = "=1.0.229", features = ["derive"] }
serde_json = "=1.0.154"
clap = { version = "=4.6.7", features = ["derive"] }
strict-yaml-rust = { version = "=0.2.0", features = ["serde"] }
glib = "=0.22.10"
libc = "=0.2.191"
