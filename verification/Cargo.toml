[package]
name = "rspc"
version = "0.1.0"
edition = "2021"
publish = false

[dependencies]
serde_json = "1"
specta = { version = "1", features = ["typescript"] }
