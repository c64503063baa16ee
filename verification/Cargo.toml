[package]
name = "thumbor"
version = "0.1.0"
edition = "2021"
publish = false

[dependencies]
image = { version = "*", default-features = false, features = ["png", "jpeg"] }
lru = "*"
axum = "*"
tokio = { version = "*", features = ["macros", "rt-multi-thread", "net", "sync"] }
reqwest = { version = "*", default-features = false, features = ["rustls-tls"] }
percent-encoding = "*"
bytes = "*"
serde = { version = "*", features = ["derive"] }
anyhow = "*"
tower = "*"
tracing = "*"
tracing-subscriber = "*"
