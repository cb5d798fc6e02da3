[package]
name = "ipfee"
version = "0.1.0"
edition = "2021"
publish = false

[dependencies]
lru = "0.12"
serde = { version = "1", features = ["derive"] }
serde_json = "1"
bincode = "1"
clap = "2"
crossbeam = "0.8"
chrono = "0.4"
reqwest = { version = "0.11", default-features = false, features = ["blocking", "json"] }
