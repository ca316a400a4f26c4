[package]
name = "dollar_rates"
version = "0.1.0"
edition = "2021"
publish = false

[dependencies]
scraper = "*"
config = { version = "*", default-features = false, features = ["yaml"] }
reqwest = "*"
serde = { version = "*", features = ["derive"] }
serde_json = "*"
tokio = { version = "*", features = ["macros", "rt-multi-thread", "time"] }
actix-web = "*"
env_logger = "*"
tracing = "*"
