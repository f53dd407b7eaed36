[package]
name = "sushi"
version = "0.1.0"
edition = "2021"
publish = false

[dependencies]
actix-files = "0.5"
actix-rt = "=1.1.1"
actix-web = "3"
jsonwebtoken = "=7.2.0"
lazy_static = "=1.5.1"
linked_hash_set = "=0.1.6"
listenfd = "=0.3.5"
log = "=0.4.34"
pretty_env_logger = "=0.4.0"
rand = "=0.7.3"
rusqlite = { version = "=0.24.2", features = ["bundled", "serde_json"] }
serde = { version = "=1.0.229", features = ["derive"] }
serde_json = "=1.0.154"
tokio = { version = "=0.2.25", features = ["macros", "rt-core", "stream", "sync", "time"] }
