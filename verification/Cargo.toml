[package]
name = "bincode_next"
version = "0.1.0"
edition = "2021"
publish = false

[dependencies]
rapidhash = "4"
serde = { version = "1", features = ["derive"] }
