[package]
name = "l4s_bench"
version = "0.1.0"
edition = "2021"
publish = false

[dependencies]
itertools = "0.14"
serde = { version = "1", features = ["derive"] }
serde_json = "1"
tokio = { version = "1", features = ["rt-multi-thread", "macros", "process", "fs", "sync", "time", "net"] }
reqwest = { version = "0.12", default-features = false }
rtnetlink = "*"
futures-util = "0.3"
clap = { version = "4", features = ["derive"] }
chrono = "0.4"
csv = "1"
ctrlc = "3"
indicatif = "0.17"
libc = "0.2"
spin_sleep = "1"
eyre = "0.6"
color-eyre = "0.6"
thiserror = "2"
