[package]
name = "audit_watchdog"
version = "0.1.0"
edition = "2021"
publish = false

[dependencies]
chrono = "0.4"
clap = { version = "4", features = ["derive"] }
crossbeam-channel = "0.5"
ctrlc = "3"
env_logger = "0.11"
ipnet = "2"
iprange = "0.6"
log = "0.4"
notify-debouncer-full = "*"
once_cell = "1"
regex = "1"
