[package]
name = "link_preview"
version = "0.1.0"
edition = "2021"
publish = false

[dependencies]
actix-cors = "*"
actix-web = "*"
anyhow = "*"
metascraper = "*"
moka = { version = "*", features = ["future", "sync"] }
reqwest = "*"
serde = { version = "*", features = ["derive"] }
