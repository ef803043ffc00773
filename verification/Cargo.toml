[package]
name = "buruma"
version = "0.1.0"
edition = "2021"
publish = false

[dependencies]
tokio = { version = "*", features = ["net", "io-util", "sync", "rt-multi-thread", "macros", "time"] }
chrono = "*"
futures-timer = "*"
log = "*"
pretty_env_logger = "*"
