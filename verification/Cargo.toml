[package]
name = "sm_action"
version = "0.1.0"
edition = "2021"
publish = false

[dependencies]
anyhow = "1"
bitwarden-core = "*"
bitwarden-sm = "*"
tokio = { version = "1", features = ["rt-multi-thread", "macros"] }
uuid = { version = "1", features = ["v4"] }
