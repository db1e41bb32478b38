[package]
name = "yonder"
version = "0.1.0"
edition = "2021"
publish = false

[dependencies]
rand = "0.8"
serde = { version = "1", features = ["derive"] }
serde_json = "1"
rusqlite = "0.31"
rocket = { version = "0.5", features = ["json"] }
rocket_ws = "0.1"
