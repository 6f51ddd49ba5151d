[package]
name = "engram"
version = "0.1.0"
edition = "2021"
publish = false

[dependencies]
serde = { version = "1", features = ["derive"] }
serde_json = "1"
anyhow = "1"
ndarray = "0.16"
ort = { version = "2.0.0-rc.10", default-features = false, features = ["ndarray", "load-dynamic", "std"] }
tokenizers = { version = "0.21", default-features = false, features = ["onig"] }
