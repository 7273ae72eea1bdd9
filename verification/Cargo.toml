[package]
name = "etag"
version = "0.1.0"
edition = "2021"
publish = false

[dependencies]
heapless = "=0.8.0"
embassy-sync = { version = "=0.6.2", features = ["std"] }
uuid = "=1.29.0"
chrono = { version = "=0.4.45", default-features = false, features = ["clock", "std"] }
tokio = { version = "=1.54.1", features = ["rt-multi-thread", "macros", "net", "sync", "time", "signal"] }
reqwest = { version = "=0.12.28", default-features = false, features = ["json", "rustls-tls"] }
serde = { version = "=1.0.229", features = ["derive"] }
serde_json = "=1.0.154"
anyhow = "=1.0.104"
tracing = "=0.1.44"
tracing-subscriber = { version = "=0.3.23", features = ["env-filter"] }
futures = "=0.3.34"
btleplug = "=0.11.8"
