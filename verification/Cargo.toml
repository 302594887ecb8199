[package]
name = "chimera_md"
version = "0.1.0"
edition = "2021"
publish = false

[dependencies]
async-watcher = "*"
axum = "0.8"
chrono = "0.4"
clap = { version = "4", features = ["derive", "env"] }
indexmap = { version = "2", features = ["serde"] }
pulldown-cmark = "0.12"
regex = "1"
serde = { version = "1", features = ["derive"] }
slugify = "*"
tantivy = "0.22"
tera = { version = "1", default-features = false }
tokio = { version = "1", features = ["full"] }
toml = "0.8"
tower-http = { version = "0.6", features = ["fs", "compression-gzip"] }
tracing = "0.1"
tracing-appender = "0.2"
tracing-subscriber = "0.3"
urlencoding = "2"
walkdir = "2"
yaml-rust2 = "0.9"
