[package]
name = "frame_codec"
version = "0.1.0"
edition = "2021"
publish = false

[dependencies]
hex = "0.4"
quick-xml = "0.22"
regex = "1"
serde = { version = "1", features = ["derive"] }
serde_json = "1"
