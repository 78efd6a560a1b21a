[package]
name = "crabbysearch"
version = "1.0.0"
edition = "2021"
publish = false

[dependencies]
actix-cors = "*"
actix-files = "*"
actix-web = "*"
env_logger = "*"
figment = { version = "*", features = ["env"] }
futures = "*"
log = "*"
maud = "*"
reqwest = { version = "*", default-features = false, features = ["rustls-tls", "gzip", "brotli", "http2"] }
serde = { version = "*", features = ["derive"] }
serde_json = "*"
tokio = { version = "*", features = ["macros", "rt-multi-thread"] }
