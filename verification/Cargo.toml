[package]
name = "mensa_menu"
version = "0.1.0"
edition = "2021"
publish = false

[dependencies]
scraper = "=0.27.0"
lru = { version = "=0.18.5", default-features = false }
reqwest = { version = "=0.12.28", default-features = false, features = ["blocking", "rustls-tls"] }
