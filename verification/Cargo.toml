[package]
name = "simple_grep"
version = "0.1.0"
edition = "2021"
publish = false

[dependencies]
anyhow = "*"
clap = { version = "*", features = ["derive"] }
futures = "*"
regex = "*"
tokio = { version = "*", features = ["rt", "rt-multi-thread", "macros", "fs", "io-util", "sync"] }
