[package]
name = "toshi"
version = "0.1.0"
edition = "2021"
publish = false

[dependencies]
tantivy = "*"
serde = { version = "*", features = ["derive"] }
serde_json = "*"
http = "*"
parking_lot = "*"
