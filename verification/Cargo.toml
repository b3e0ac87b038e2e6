[package]
name = "caching_proxy"
version = "0.1.0"
edition = "2021"
publish = false

[dependencies]
bytes = "1"
clap = { version = "4", features = ["derive"] }
dashmap = "6"
once_cell = "1"
reqwest = "0.12"
tokio = { version = "1", features = ["full"] }
warp = "0.3"
