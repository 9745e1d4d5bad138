[package]
name = "spider_downloader"
version = "0.1.0"
edition = "2021"
publish = false

[dependencies]
reqwest = { version = "*", default-features = false }
serde_json = "*"
url = "*"
tokio = { version = "*", default-features = false, features = ["sync"] }
async-trait = "*"
bytes = "*"
http = "*"
