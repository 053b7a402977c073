[package]
name = "papr"
version = "0.1.0"
edition = "2021"
publish = false

[dependencies]
ammonia = "4"
ego-tree = "*"
log = "0.4"
reqwest = { version = "0.12", default-features = false, features = ["json"] }
rusqlite = { version = "*", features = ["bundled"] }
scraper = "*"
serde = { version = "1", features = ["derive"] }
serde_json = "1"
tokio = { version = "1", features = ["rt", "rt-multi-thread", "sync", "time"] }
url = "2"
