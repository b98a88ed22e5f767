[package]
name = "roxy"
version = "0.1.5"
edition = "2021"
publish = false

[dependencies]
axum = "=0.7.9"
bytes = "=1.12.1"
flate2 = "1"
futures-util = "=0.3.34"
http-body-util = "=0.1.5"
hyper-tls = "=0.6.0"
hyper-util = { version = "=0.1.21", features = ["client", "client-legacy", "http1", "http2", "tokio"] }
prometheus = { version = "=0.13.4", default-features = false }
serde = { version = "=1.0.229", features = ["derive"] }
serde_json = "=1.0.154"
serde_yaml = "=0.9.34"
tokio = { version = "=1.54.1", features = ["macros", "net", "rt-multi-thread", "signal", "time"] }
tower = { version = "=0.5.3", features = ["util"] }
tower-http = { version = "=0.6.11", features = ["trace"] }
tracing = "=0.1.44"
tracing-subscriber = { version = "=0.3.23", features = ["env-filter", "fmt"] }
