[package]
name = "realize_core"
version = "0.1.0"
edition = "2021"
publish = false

[dependencies]
fast_rsync = "*"
redb = "*"
tokio = { version = "*", features = ["sync", "rt", "rt-multi-thread", "macros", "time", "fs", "io-util"] }
futures = "*"
anyhow = "*"
thiserror = "*"
log = "*"
