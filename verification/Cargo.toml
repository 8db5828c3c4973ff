[package]
name = "search_engine"
version = "0.1.0"
edition = "2021"
publish = false

[dependencies]
url = "2"
sha2 = "0.10"
scraper = "*"
regex = "1"
serde = { version = "1", features = ["derive"] }
serde_json = "1"
toml = "*"
dashmap = "*"
tokio = { version = "1", features = ["rt-multi-thread", "macros", "sync", "time", "net"] }
reqwest = { version = "*", default-features = false, features = ["rustls-tls"] }
urlencoding = "2"
