[package]
name = "yogurt"
version = "0.1.0"
edition = "2021"
publish = false

[dependencies]
anyhow = "=1.0.104"
block2 = "=0.6.2"
chrono = { version = "=0.4.45", features = ["serde"] }
clap = { version = "=4.6.7", features = ["derive"] }
crossterm = "=0.28.1"
dirs = "=6.0.0"
dispatch2 = "=0.3.1"
dotenvy = "=0.15.7"
libc = "=0.2.191"
log = "=0.4.35"
objc2 = "=0.6.5"
objc2-core-audio = "=0.3.2"
objc2-core-audio-types = "=0.3.2"
objc2-core-foundation = "=0.3.2"
objc2-foundation = "=0.3.2"
ogg = "=0.9.2"
opus = "=0.3.1"
parakeet-rs = "=0.4.4"
pulldown-cmark = "=0.13.6"
ratatui = "=0.29.0"
serde = { version = "=1.0.229", features = ["derive"] }
serde_json = "=1.0.154"
simplelog = "=0.12.2"
symphonia = { version = "=0.5.5", default-features = false, features = ["mp3"] }
tui-textarea = "=0.7.0"
tungstenite = { version = "=0.26.2", features = ["rustls-tls-webpki-roots"] }
unicode-width = "=0.2.0"
ureq = { version = "=3.5.1", features = ["json"] }
whisper-rs = "=0.16.0"
