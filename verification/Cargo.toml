[package]
name = "eb_nordpool"
version = "0.1.0"
edition = "2021"
publish = false

[dependencies]
chrono = { version = "=0.4.45", features = ["serde"] }
chrono-tz = "=0.10.4"
serde = { version = "=1.0.229", features = ["derive"] }
serde_json = "=1.0.151"
url = "2"
reqwest = { version = "=0.12.28", default-features = false, features = ["blocking"] }
