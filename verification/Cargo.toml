[package]
name = "filesync"
version = "0.1.0"
edition = "2021"
publish = false

[dependencies]
anyhow = "*"
bimap = "*"
chrono = "*"
redb = "*"
reqwest_dav = "*"
tokio = { version = "*", features = ["rt", "rt-multi-thread", "fs", "io-util", "sync", "macros"] }
typed-path = "*"
