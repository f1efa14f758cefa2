[package]
name = "pentaract"
version = "0.1.0"
edition = "2021"
publish = false

[dependencies]
uuid = { version = "*", features = ["v4"] }
reqwest = { version = "*", default-features = false, features = ["multipart", "json"] }
tokio = { version = "*", features = ["time", "sync", "rt-multi-thread", "macros"] }
futures = "*"
serde = { version = "*", features = ["derive"] }
