[package]
name = "wharf"
version = "0.1.0"
edition = "2021"
publish = false

[dependencies]
actix-web = { version = "4.4", features = ["rustls-0_21"] }
chrono = "0.4"
config = { version = "0.13", default-features = false, features = ["toml"] }
env_logger = "0.10"
futures = "0.3"
lazy_static = "1"
log = "0.4"
reqwest = { version = "0.11", default-features = false, features = ["rustls-tls", "stream"] }
rustls = "0.21"
rustls-pemfile = "1"
serde = { version = "1", features = ["derive"] }
