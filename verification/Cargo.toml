[package]
name = "diverge"
version = "0.1.0"
edition = "2021"
publish = false

[dependencies]
hickory-proto = "=0.24.4"
hickory-resolver = { version = "=0.24.4", features = ["dns-over-rustls", "dns-over-https-rustls", "dns-over-h3"] }
tokio = { version = "=1.54.1", features = ["rt", "net", "macros", "signal", "io-util", "time", "sync"] }
log = "=0.4.34"
env_logger = "=0.11.11"
