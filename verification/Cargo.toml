[package]
name = "device_history"
version = "0.1.0"
edition = "2021"
publish = false

[dependencies]
chrono = "=0.4.45"
colored = "=2.2.0"
parking_lot = "=0.12.5"
serde = { version = "=1.0.229", features = ["derive"] }
serde_json = "=1.0.154"
ureq = "=2.12.1"
wmi = "=0.14.5"
