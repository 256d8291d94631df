[package]
name = "suji"
version = "0.1.0"
edition = "2021"
publish = false

[dependencies]
serde_json = "1"
pulldown-cmark = { version = "0.12", default-features = false, features = ["html"] }
tera = "1"
itertools = "0.13"
serde = { version = "1", features = ["derive"] }
glob = "0.3"
hotwatch = "0.5"
structopt = "0.3"
slog = "2"
slog-async = "2"
slog-term = "2"
tokio = { version = "1", features = ["full"] }
axum = "0.7"
tower-http = { version = "0.5", features = ["fs"] }
