[package]
name = "davd"
version = "0.1.0"
edition = "2021"
publish = false

[dependencies]
chrono = "=0.4.45"
quick-xml = "=0.36.2"
url = "=2.5.8"
clap = { version = "=4.6.7", features = ["derive"] }
tokio = { version = "=1.54.1", features = ["macros", "rt-multi-thread", "time"] }
reqwest = { version = "=0.12.28", default-features = false, features = ["rustls-tls"] }
zbus = { version = "=4.4.0", default-features = false, features = ["tokio"] }
serde = { version = "=1.0.229", features = ["derive"] }
serde_json = "=1.0.154"
anyhow = "=1.0.104"
tracing = "=0.1.44"
tracing-subscriber = { version = "=0.3.23", features = ["env-filter"] }
