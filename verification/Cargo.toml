[package]
name = "youtube_rss"
version = "0.1.0"
edition = "2021"
publish = false

[dependencies]
ascii = "1"
chrono = { version = "0.4", default-features = false, features = ["std", "clock"] }
reqwest = "0.12"
tiny_http = "0.12"
tokio = { version = "1", features = ["macros", "rt-multi-thread"] }
xml-rs = "0.8"
