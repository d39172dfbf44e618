[package]
name = "url_dedup"
version = "0.1.0"
edition = "2021"
publish = false

[dependencies]
serde_json = "1"
serde_yaml = "0.9"
hashbrown = "0.15"
reqwest = { version = "0.12", default-features = false }
tokio = { version = "1", features = ["macros", "rt-multi-thread"] }
futures = "0.3"
regex = "1"
