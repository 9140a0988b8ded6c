[package]
name = "rustwari"
version = "0.1.0"
edition = "2021"
publish = false

[dependencies]
anyhow = "1"
bytes = "1"
chrono = "0.4"
clap = { version = "4", features = ["derive"] }
fern = "0.6"
futures = "0.3"
image = { version = "0.24", default-features = false, features = ["png", "jpeg"] }
kdam = "0.3"
log = "0.4"
open = "5"
reqwest = { version = "0.11", default-features = false, features = ["rustls-tls"] }
serde = { version = "1", features = ["derive"] }
serde_yaml = "0.9"
tokio = { version = "1", features = ["rt-multi-thread", "macros", "sync", "fs", "time"] }
url = "2"
wallpaper = "3"
