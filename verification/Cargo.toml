[package]
name = "humidity_monitor"
version = "0.1.0"
edition = "2021"
publish = false

[dependencies]
heapless = "=0.8.0"
embassy-sync = "=0.8.0"
critical-section = { version = "=1.2.0", features = ["std"] }
serde = { version = "=1.0.229", features = ["derive"] }
serde-json-core = "=0.6.0"
rand = "=0.10.3"
