[package]
name = "movement_tracks_analyzer"
version = "0.1.0"
edition = "2021"
publish = false

[dependencies]
chrono = "=0.4.45"
clap = { version = "=4.6.7", features = ["derive"] }
quick-xml = "=0.39.4"
regex = "=1.13.1"
serde = { version = "=1.0.229", features = ["derive"] }
serde_json = { version = "=1.0.154", features = ["preserve_order"] }
unicode-width = "=0.2.3"
zip = { version = "=8.6.0", default-features = false, features = ["deflate"] }
