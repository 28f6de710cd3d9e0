[package]
name = "rinex"
version = "0.1.0"
edition = "2021"
publish = false

[dependencies]
chrono = "0.4"
regex = "1"
rust-3d = "*"
strum = { version = "*", features = ["derive"] }
thiserror = "1"
