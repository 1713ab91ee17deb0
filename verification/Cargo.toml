[package]
name = "podcast_feed"
version = "0.1.0"
edition = "2021"
publish = false

[dependencies]
chrono = { version = "=0.4.45", default-features = false, features = ["std"] }
html-escape = "=0.2.15"
quick-xml = "=0.41.0"
rss = "=2.1.2"
youtube_dl = "=0.10.0"
