[package]
name = "myace"
version = "0.1.0"
edition = "2021"
publish = false

[dependencies]
argon2 = "0.4"
rand = "0.8"
hmac = "0.12"
sha2 = "0.10"
uuid = { version = "1", features = ["v4"] }
clap = { version = "4", features = ["derive", "env"] }
dotenvy = "0.15"
