[package]
name = "audio_capture"
version = "0.1.0"
edition = "2021"
publish = false

[dependencies]
serde = { version = "1", features = ["derive"] }
serde_json = "1"
tokio = { version = "1", features = ["sync", "time", "rt", "rt-multi-thread", "macros"] }
async-trait = "0.1"
thiserror = "2"
rtrb = "0.3"
rubato = "0.16"
cpal = "0.17"
reqwest = { version = "0.12", default-features = false, features = ["json"] }
whisper-rs = "0.15"
objc2 = "0.6"
