[package]
name = "redbreadcrumb"
version = "0.1.0"
edition = "2021"
publish = false

[dependencies]
goblin = "*"
rand = "*"
chrono = { version = "*", features = ["serde"] }
clap = { version = "*", features = ["derive"] }
dirs = "*"
serde = { version = "*", features = ["derive"] }
serde_json = "*"
thiserror = "*"
uuid = { version = "*", features = ["v4", "serde"] }
