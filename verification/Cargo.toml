[package]
name = "strm_inspector"
version = "0.1.0"
edition = "2021"
publish = false

[dependencies]
image = { version = "0.25", default-features = false, features = ["png"] }
lz4_flex = "0.11"
texture2ddecoder = "0.1"
serde = { version = "1", features = ["derive"] }
