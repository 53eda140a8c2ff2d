[package]
name = "jellycord"
version = "0.1.0"
edition = "2021"
publish = false

[dependencies]
chrono = "=0.4.45"
config = { version = "=0.14.1", default-features = false, features = ["yaml"] }
isahc = "=1.8.3"
regex = "=1.13.1"
reqwest = { version = "=0.11.27", default-features = false, features = ["rustls-tls"] }
serde = { version = "=1.0.229", features = ["derive"] }
serde_derive = "=1.0.229"
serde_json = "=1.0.154"
serenity = { version = "=0.12.5", default-features = false, features = ["builder", "cache", "client", "gateway", "http", "model", "rustls_backend"] }
sqlx = { version = "=0.7.4", default-features = false, features = ["migrate", "runtime-tokio", "sqlite"] }
tokio = { version = "=1.54.1", features = ["macros", "rt-multi-thread", "time"] }
