[package]
name = "aviutl2_catalog"
version = "0.1.0"
edition = "2021"
publish = false

[dependencies]
xxhash-rust = { version = "*", features = ["xxh3"] }
time = "*"
serde = { version = "*", features = ["derive"] }
serde_json = "*"
