[package]
name = "toolshed"
version = "0.1.0"
edition = "2021"
publish = false

[dependencies]
anyhow = "1"
chrono = "0.4"
clap = { version = "4.5", features = ["derive"] }
regex = "1.12.1"
rusqlite = "*"
uuid = { version = "1", features = ["v4"] }
