[package]
name = "session_auth"
version = "0.1.0"
edition = "2021"
publish = false

[dependencies]
twox-hash = "*"
rust-argon2 = "*"
uuid = { version = "*", features = ["v4"] }
chrono = "*"
ffly-rs = "*"
futures = "*"
