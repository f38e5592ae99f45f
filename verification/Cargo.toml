[package]
name = "axmd"
version = "0.1.0"
edition = "2021"
publish = false

[dependencies]
serde_json = "=1.0.151"
htmd = "=0.5.5"
