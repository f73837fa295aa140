[package]
name = "stockholm"
version = "0.2.26"
edition = "2021"
publish = false

[dependencies]
chrono = "*"
clap = { version = "4", features = ["derive"] }
csv = "1"
dirs = "*"
env_logger = "*"
ibapi = "*"
log = "0.4"
rayon = "1"
serde = { version = "1", features = ["derive"] }
tempfile = "3"
time = { version = "0.3", features = ["formatting", "parsing", "serde"] }
time-tz = "*"
tokio = { version = "1", features = ["macros", "rt-multi-thread", "sync", "time"] }
uuid = { version = "1", features = ["v4"] }
yaml_serde = "*"
