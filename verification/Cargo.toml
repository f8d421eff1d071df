[package]
name = "mp3_downloader_gui"
version = "0.1.0"
edition = "2021"
publish = false

[dependencies]
regex = "=1.13.1"
chrono = { version = "0.4", default-features = false, features = ["clock", "std"] }
uuid = { version = "1", features = ["v4"] }
rand = "0.8"
urlencoding = "2"
scraper = "0.21"
serde = { version = "1", features = ["derive"] }
reqwest = { version = "0.12", default-features = false, features = ["blocking", "cookies", "rustls-tls"] }
tokio = { version = "1", features = ["rt-multi-thread", "macros", "net", "sync"] }
tracing = "0.1"
rodio = { version = "0.20", default-features = false, features = ["symphonia-mp3"] }
axum = "0.8"
tower-http = { version = "0.6", features = ["cors"] }
tracing-subscriber = "0.3"
rfd = { version = "0.15", default-features = false, features = ["xdg-portal", "tokio"] }
