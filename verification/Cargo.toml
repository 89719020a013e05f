[package]
name = "p2p_chat"
version = "0.1.0"
edition = "2021"
publish = false

[dependencies]
hex = "*"
rand = "*"
serde = { version = "*", features = ["derive"] }
serde_json = "*"
chrono = "*"
