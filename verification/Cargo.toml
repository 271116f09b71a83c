[package]
name = "gembs_dbsnp"
version = "0.1.0"
edition = "2021"
publish = false

[dependencies]
crossbeam-channel = "*"
glob = "*"
serde = { version = "*", features = ["derive"] }
serde_json = "*"
