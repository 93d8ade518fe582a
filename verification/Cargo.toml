[package]
name = "audio_store"
version = "0.1.0"
edition = "2021"
publish = false

[dependencies]
hound = "*"
mp3-duration = "*"
tokio = { version = "*", features = ["full"] }

[dev-dependencies]
serde_json = "*"
