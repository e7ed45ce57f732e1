[package]
name = "mux_session"
version = "0.1.0"
edition = "2021"
publish = false

[dependencies]
anyhow = "*"
futures = "*"
tokio = { version = "*", features = ["macros", "net", "rt-multi-thread", "io-util"] }
tokio-util = { version = "*", features = ["codec", "compat"] }
tracing = "*"
tracing-subscriber = "*"
yamux = "*"
