[package]
name = "crawl_frontier"
version = "0.1.0"
edition = "2021"
publish = false

[dependencies]
url = "=2.5.8"
html5ever = "=0.40.1"
robotparser = "=0.11.0"
reqwest = { version = "=0.11.27", features = ["blocking"] }
mime = "=0.3.17"
ammonia = "=4.2.4"
log = "=0.4.34"
env_logger = "=0.11.11"
