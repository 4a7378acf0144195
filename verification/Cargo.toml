[package]
name = "gemcaps"
version = "0.1.0"
edition = "2021"
publish = false

[dependencies]
regex = "1"
urlencoding = "2"
tokio = { version = "1", features = ["full"] }
rustls = "0.21"
tokio-rustls = "0.24"
rustls-pemfile = "1"
serde = { version = "1", features = ["derive"] }
toml = "0.8"
clap = { version = "4", features = ["derive"] }
chrono = "0.4"
futures = "0.3"
lazy_static = "1"
bytes = "1"
