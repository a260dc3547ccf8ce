[package]
name = "toy_payments"
version = "0.1.0"
edition = "2021"
publish = false

[dependencies]
clap = { version = "*", features = ["derive"] }
csv = "*"
futures-util = "*"
rust_decimal = "*"
serde = { version = "*", features = ["derive"] }
smol_str = "*"
tokio = { version = "*", features = ["rt-multi-thread", "macros", "sync"] }
tracing = "*"
tracing-appender = "*"
tracing-subscriber = "*"
