[package]
name = "squeef"
version = "0.1.0"
edition = "2021"
publish = false

[dependencies]
chrono = "*"
clap = { version = "*", features = ["derive"] }
lazy_static = "*"
serde = { version = "*", features = ["derive"] }
serde-inline-default = "*"
toml = "*"
