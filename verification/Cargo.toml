[package]
name = "orpheusmorebetter"
version = "0.1.0"
edition = "2021"
publish = false

[dependencies]
anyhow = "1"
chrono = { version = "0.4", default-features = false, features = ["clock"] }
futures = "0.3"
http = "1"
id3 = "1"
rust-ini = "0.21"
log = "0.4"
reqwest = { version = "0.12", default-features = false, features = ["json", "multipart", "cookies", "rustls-tls"] }
reqwest-middleware = "0.4"
rusqlite = { version = "0.32", features = ["bundled"] }
serde = { version = "1", features = ["derive"] }
serde_json = "1"
thiserror = "2"
tokio = { version = "1", features = ["rt", "macros", "time", "fs"] }
walkdir = "2"

[dev-dependencies]
regex = "1"
