[package]
name = "rubbish"
version = "1.0.0"
edition = "2021"

[dependencies]
atty = "=0.2.14"
axum = { version = "=0.7.9", default-features = false, features = ["http1", "tokio"] }
chrono = "=0.4.45"
crossterm = "=0.25.0"
libc = "=0.2.191"
notify = "=6.1.1"
serde_json = "=1.0.154"
signal-hook = "=0.3.18"
tokio = { version = "=1.54.1", features = ["macros", "net", "rt-multi-thread", "signal", "sync"] }
tracing = "=0.1.44"
tracing-appender = "=0.2.5"
tracing-subscriber = "=0.3.23"
tui = "=0.19.0"
ulid = "=1.2.1"
unicode-width = "=0.1.14"

[dev-dependencies]
uuid = { version = "=1.29.0", features = ["v4"] }
