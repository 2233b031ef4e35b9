[package]
name = "ytdl"
version = "0.1.0"
edition = "2021"
publish = false

[dependencies]
actix-web = { version = "4", default-features = false, features = ["macros"] }
anyhow = "1"
chrono = "=0.4.45"
dirs = "5"
lazy_static = "1"
notify = "6"
rand = "=0.8.8"
serde = { version = "1", features = ["derive"] }
serde_json = "1"
tokio = { version = "1", features = ["full"] }
urlencoding = "=2.1.3"
uuid = { version = "=1.29.0", features = ["v4"] }
ytd-rs = { version = "=0.1.7", features = ["yt-dlp"] }
