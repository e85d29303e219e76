[package]
name = "portfolio"
version = "0.1.0"
edition = "2021"
publish = false

[dependencies]
dioxus = { version = "0.5", default-features = false, features = ["macro", "html", "hooks", "signals", "launch", "router"] }
dioxus-logger = "0.5"
serde = { version = "1", features = ["derive"] }
tracing = "0.1"
