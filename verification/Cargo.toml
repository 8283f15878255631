[package]
name = "crafty"
version = "0.1.0"
edition = "2021"
publish = false

[dependencies]
chrono = { version = "=0.4.45", default-features = false, features = ["clock"] }
cron = "=0.15.0"
tokio = { version = "=1.54.1", features = ["sync", "time", "rt", "macros"] }
rustls = { version = "=0.23.46", default-features = false, features = ["ring", "std"] }
rustls-pemfile = "=2.2.0"
serde = { version = "=1.0.229", features = ["derive"] }
thiserror = "=2.0.21"
