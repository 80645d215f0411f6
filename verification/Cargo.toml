[package]
name = "default_extractor"
version = "0.1.0"
edition = "2021"
publish = false

[dependencies]
scraper = "=0.27.0"
ego-tree = "=0.11.0"
chrono = { version = "=0.4.45", features = ["serde"] }
serde = { version = "=1.0.229", features = ["derive"] }
serde_json = "=1.0.151"
reqwest = { version = "=0.13.5", default-features = false }
redis = "=1.7.1"
sqlx = { version = "=0.9.0", default-features = false, features = ["postgres", "runtime-tokio", "macros"] }
tokio = { version = "=1.53.2", features = ["macros", "rt-multi-thread"] }
