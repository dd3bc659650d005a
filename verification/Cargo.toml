[package]
name = "bahilizator"
version = "0.1.0"
edition = "2021"
publish = false

[dependencies]
heapless = "0.8"
portable-atomic = "1"
crossterm = "0.28"
embassy-time = { version = "0.4", features = ["std"] }
embassy-sync = "0.6"
embassy-futures = "0.1"
embassy-executor = "0.7"
critical-section = { version = "1", features = ["std"] }
static_cell = "2"
