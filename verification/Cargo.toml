[package]
name = "rcalc"
version = "0.1.0"
edition = "2021"
publish = false

[dependencies]
atty = "*"
chrono = "*"
clap = { version = "*", features = ["derive"] }
serde = { version = "*", features = ["derive"] }
serde_json = "*"
tokio = { version = "*", features = ["rt-multi-thread", "macros", "fs", "io-util", "io-std"] }
