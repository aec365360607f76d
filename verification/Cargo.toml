[package]
name = "zagent"
version = "0.1.0"
edition = "2021"
publish = false

[dependencies]
calamine = "*"
chrono = "0.4"
docx-rs = "*"
futures = "0.3"
http = "1"
parking_lot = "0.12"
pdf-extract = "*"
schemars = { version = "1", features = ["derive"] }
serde = { version = "1", features = ["derive"] }
serde_json = "1"
umya-spreadsheet = "2"
zip = { version = "2", default-features = false, features = ["deflate"] }
anyhow = "1"
async-channel = "2"
log = "0.4"
