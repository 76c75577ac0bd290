[package]
name = "stargazer"
version = "0.1.0"
edition = "2021"
publish = false

[dependencies]
axum = "=0.5.17"
color-eyre = "=0.6.5"
eyre = "=0.6.14"
futures = "=0.3.34"
futures-util = "=0.3.34"
http = "=0.2.12"
isolanguage-1 = { version = "=0.2.2", features = ["serde"] }
mongodb = "=2.8.2"
serde = { version = "=1.0.229", features = ["derive"] }
serde_json = "=1.0.154"
tower-http = { version = "=0.3.5", features = ["cors", "trace"] }
tracing = "=0.1.44"
