[package]
name = "dirlist"
version = "0.1.0"
edition = "2021"
publish = false

[dependencies]
axum = "*"
bytes = "*"
chrono = "*"
clap = { version = "*", features = ["derive"] }
color-eyre = "*"
eyre = "*"
http = "*"
http-body = "*"
tokio = { version = "*", features = ["rt-multi-thread", "macros", "net", "fs"] }
tower = "*"
tower-http = { version = "*", features = ["fs", "trace"] }
tracing = "*"
tracing-subscriber = "*"
