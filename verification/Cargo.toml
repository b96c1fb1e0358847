[package]
name = "lazydns"
version = "0.1.0"
edition = "2021"
publish = false

[dependencies]
regex = "=1.13.1"
ipnet = "=2.12.2"
dashmap = "=6.2.1"
lru = "=0.19.0"
serde = { version = "=1.0.229", features = ["derive"] }
serde_yaml = "=0.9.34"
serde_json = "=1.0.154"
time = { version = "=0.3.55", features = ["local-offset", "formatting", "macros"] }
tokio = { version = "1", features = ["sync", "rt", "time", "net"] }
once_cell = "1"
parking_lot = "*"
prometheus = { version = "*", default-features = false }
reqwest = { version = "*", default-features = false }
