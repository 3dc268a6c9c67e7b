[package]
name = "rigg_voice"
version = "0.1.0"
edition = "2021"
publish = false

[dependencies]
hound = "3.5"
serde_json = "1"
ureq = "2"
arboard = { version = "3", default-features = false }
cpal = "0.18"
whisper-rs = "0.16"
window-vibrancy = "0.7"
