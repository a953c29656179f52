[package]
name = "dig_stack"
version = "0.1.0"
edition = "2021"
publish = false

[dependencies]
uuid = { version = "1", features = ["v4"] }
serde = { version = "1", features = ["derive"] }
serde_json = "1"
clap = { version = "4", features = ["derive"] }
tokio = { version = "1", features = ["rt", "time", "sync"] }
ratatui = { version = "0.29", default-features = false, features = ["crossterm"] }
