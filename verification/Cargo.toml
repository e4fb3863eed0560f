[package]
name = "url_crawler"
version = "0.1.0"
edition = "2021"
publish = false

[dependencies]
addr = "*"
clap = { version = "*", features = ["derive"] }
env_logger = "*"
log = "*"
reqwest = { version = "*", features = ["blocking"] }
scraper = "*"
url = "*"
