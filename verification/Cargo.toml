[package]
name = "dbuf"
version = "0.1.0"
edition = "2021"
publish = false

[dependencies]
atomic-waker = "1"
clap = { version = "4", features = ["derive"] }
clap-verbosity-flag = { version = "*", features = ["tracing"] }
color-eyre = "0.6"
crossbeam-utils = "0.8"
dashmap = "6"
eyre = "0.6"
hashbrown = "0.15"
rand = "0.9"
rc-box = "1"
serde = { version = "1", features = ["derive"] }
serde_json = "1"
sync_wrapper = "1"
tracing = "0.1"
tracing-subscriber = "0.3"
triomphe = "0.1"

[dev-dependencies]
pollster = "*"
