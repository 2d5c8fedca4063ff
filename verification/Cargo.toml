[package]
name = "cachecannon"
version = "0.1.0"
edition = "2021"
publish = false

[dependencies]
histogram = "=1.6.4"
metriken = "=0.9.2"
metriken-exposition = "=0.16.1"
rmp-serde = "=1.3.1"
tokio = { version = "=1.54.1", features = ["rt", "net", "io-util", "sync", "time", "macros"] }
tracing = "=0.1.44"
