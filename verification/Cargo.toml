[package]
name = "holo_bot"
version = "0.1.0"
edition = "2021"
publish = false

[dependencies]
regex = "=1.13.1"
isolang = "=2.4.0"
rand = "=0.8.8"
lru = { version = "=0.19.0", default-features = false }
serde = { version = "=1.0.229", features = ["derive"] }
serde_json = "=1.0.154"
ureq = { version = "=2.12.1", features = ["json"] }
chrono = "=0.4.45"
