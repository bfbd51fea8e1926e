[package]
name = "vsm_generator"
version = "0.1.0"
edition = "2021"
publish = false

[dependencies]
anyhow = "1"
axum = { version = "0.7", features = ["ws"] }
chrono = { version = "0.4", features = ["serde"] }
clap = { version = "4", features = ["derive"] }
flate2 = "1"
flexbuffers = "2"
lazy_static = "1"
mime_guess = "2"
minify = "*"
minify-html = "*"
notify = "6"
pulldown-cmark = { version = "0.10", default-features = false, features = ["html"] }
quick-xml = "0.31"
r2d2 = "0.8"
r2d2_sqlite = "*"
rand = "0.8"
reqwest = { version = "0.12", default-features = false, features = ["json", "rustls-tls"] }
serde = { version = "1", features = ["derive"] }
tar = "0.4"
tokio = { version = "1", features = ["full"] }
tracing = "0.1"
tracing-subscriber = "0.3"
url = "2"
walkdir = "2"
words-count = "*"
