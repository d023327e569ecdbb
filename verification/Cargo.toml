[package]
name = "byrradar"
version = "0.1.0"
edition = "2021"
publish = false

[dependencies]
anyhow = "1"
reqwest = { version = "0.12", default-features = false, features = ["blocking", "cookies", "json", "multipart", "rustls-tls"] }
reqwest_cookie_store = "0.8"
scraper = "0.20"
select = "0.6"
serde = { version = "1", features = ["derive"] }
serde_bencode = "0.2"
serde_bytes = "0.11"
serde_json = "1"
url = "2"
uuid = { version = "1", features = ["v4"] }
