[package]
name = "squeaky"
version = "0.1.0"
edition = "2021"
publish = false

[dependencies]
anyhow = "1"
cairo-rs = "*"
cpal = "*"
evdev = "*"
futures-util = "0.3"
gdk4 = "*"
gtk4 = "*"
nix = { version = "*", features = ["user"] }
percent-encoding = "2"
reqwest = { version = "*", features = ["json", "stream"] }
scraper = "*"
serde = { version = "1", features = ["derive"] }
serde_json = "1"
tokio = { version = "1", features = ["rt-multi-thread", "macros", "time"] }
whisper-rs = "*"
