[package]
name = "docker_tui"
version = "0.1.0"
edition = "2021"
publish = false

[dependencies]
bollard = "0.18"
clap = { version = "4", features = ["derive"] }
color-eyre = "0.6"
crossterm = "0.28"
itertools = "0.14"
ratatui = "0.29"
timeago = { version = "0.4", default-features = false }
tokio = { version = "1", features = ["rt", "rt-multi-thread", "sync", "time", "macros"] }
