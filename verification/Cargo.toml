[package]
name = "easylog"
version = "0.1.0"
edition = "2021"
publish = false

[dependencies]
anyhow = "1"
axum = { version = "*", default-features = false, features = ["json", "tokio", "http1"] }
chrono = "0.4"
duckdb = { version = "*", default-features = false }
libc = "0.2"
serde = { version = "1", features = ["derive"] }
socket2 = { version = "*", features = ["all"] }
syslog_loose = "*"
tera = { version = "1", default-features = false }
tokio = { version = "1", features = ["io-util", "macros", "net", "rt", "sync"] }
tracing = "0.1"
