[package]
name = "valvonta"
version = "0.1.0"
edition = "2021"
publish = false

[dependencies]
reqwest = { version = "=0.13.5", default-features = false, features = ["cookies", "form"] }
scraper = "=0.27.0"
serde = "=1.0.229"
serde_json = "=1.0.151"
tokio = { version = "=1.53.2", default-features = false, features = ["rt-multi-thread", "macros"] }
