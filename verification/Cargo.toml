[package]
name = "account_ledger"
version = "0.1.0"
edition = "2021"
publish = false

[dependencies]
jsonwebtoken = { version = "9", default-features = false }
serde_json = "1"
pbkdf2 = "0.12"
sha2 = "0.10"
rand = "0.8"
serde = { version = "1", features = ["derive"] }
log = { version = "0.4", features = ["serde"] }
rocket = { version = "0.5", features = ["json"] }
