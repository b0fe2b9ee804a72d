[package]
name = "audio_pipeline"
version = "0.1.0"
edition = "2021"
publish = false

[dependencies]
anyhow = "1"
cidre = "*"
cpal = "0.15"
napi = { version = "2", features = ["napi4"] }
napi-derive = "2"
ringbuf = "0.4"
