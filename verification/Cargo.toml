[package]
name = "dayz_monitor"
version = "0.1.0"
edition = "2021"
publish = false

[dependencies]
a2s = { version = "=0.6.1", features = ["async"] }
dotenv = "=0.15.0"
eyre = "*"
serde = { version = "*", features = ["derive"] }
serde-env = "=0.3.0"
serenity = { version = "=0.12.5", default-features = false, features = ["builder", "client", "gateway", "http", "model", "rustls_backend"] }
thiserror = "*"
tokio = { version = "*", features = ["macros", "net", "rt-multi-thread", "sync", "time"] }
tracing = "*"
tracing-subscriber = { version = "*", features = ["env-filter", "fmt"] }
