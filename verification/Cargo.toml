[package]
name = "locusfs"
version = "0.1.0"
edition = "2021"
publish = false

[dependencies]
tokio = { version = "1", features = ["rt-multi-thread", "macros", "fs", "process", "io-util", "time", "sync", "signal"] }
serde = { version = "1", features = ["derive"] }
serde_json = "1"
toml = "*"
zbus = "*"
async-trait = "*"
futures-util = "*"
tracing = "*"
tracing-subscriber = "*"
libloading = "*"
libc = "*"
