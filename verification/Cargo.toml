[package]
name = "hypedown"
version = "0.1.0"
edition = "2021"
publish = false

[dependencies]
http = "1"
hyper = "0.10"
hyper-native-tls = "0.3"
scraper = "*"
serde = { version = "1", features = ["derive"] }
serde_json = "1"
structopt = "0.3"
pbr = "1"
