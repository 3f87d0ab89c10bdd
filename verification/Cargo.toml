[package]
name = "pty_sandbox"
version = "0.1.0"
edition = "2021"
publish = false

[dependencies]
portable-pty = "*"
parking_lot = "*"
dirs = "*"
serde = { version = "*", features = ["derive"] }
