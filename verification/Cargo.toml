[package]
name = "axum-markdown"
version = "0.1.0"
edition = "2021"
publish = false

[dependencies]
axum = "*"
bytes = "*"
htmd = "*"
http = "*"
pin-project-lite = "*"
tiktoken-rs = "*"
tower = "*"
