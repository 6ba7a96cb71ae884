[package]
name = "malceiver"
version = "0.1.0"
edition = "2021"
publish = false

[dependencies]
anyhow = "1"
axum = { version = "0.7", features = ["multipart"] }
futures = "0.3"
hex = "0.4"
mongodb = "2"
rayon = "1"
serde = { version = "1", features = ["derive"] }
sha2 = "0.10"
tensorflow = "0.21"
tokio = { version = "1", features = ["macros", "rt-multi-thread", "net"] }
tower-http = { version = "0.5", features = ["cors"] }
tracing = "0.1"
tracing-subscriber = "0.3"
