[package]
name = "dsnitch"
version = "0.1.0"
edition = "2021"
publish = false

[dependencies]
anyhow = "1"
aya = "0.13"
aya-ebpf = "0.1"
bollard = "0.19"
clap = { version = "4", features = ["derive"] }
crossterm = "0.28"
env_logger = "0.11"
futures-util = "0.3"
hickory-proto = "0.25"
libc = "0.2"
log = "0.4"
lru = "0.12"
ratatui = "0.29"
tokio = { version = "1", features = ["rt-multi-thread", "macros", "signal", "sync", "time"] }
