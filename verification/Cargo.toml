[package]
name = "meridb"
version = "0.1.0"
edition = "2021"
publish = false

[dependencies]
crc32fast = "1"
serde = { version = "1", features = ["derive"] }
serde_json = "1"
snafu = "*"
tracing = "0.1"
tracing-appender = "0.2"
tracing-subscriber = { version = "0.3", features = ["env-filter"] }
chrono = "0.4"
libc = "0.2"
termios = "0.3"
clap = { version = "4", features = ["derive"] }
