[package]
name = "theatre_booking"
version = "0.1.0"
edition = "2021"
publish = false

[dependencies]
chrono = "=0.4.45"
serde = { version = "=1.0.229", features = ["derive"] }
serde_json = "=1.0.154"
iced = { version = "=0.12.1", default-features = false }
uuid = { version = "1", features = ["v4"] }
