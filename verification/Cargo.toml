[package]
name = "swoosh"
version = "0.1.0"
edition = "2021"
publish = false

[dependencies]
clap = { version = "=4.6.7", features = ["derive"] }
eyre = "=0.6.14"
futures = "=0.3.34"
httparse = "=1.10.1"
tokio = { version = "=1.54.1", features = ["full"] }
tracing = "=0.1.44"
url = "=2.5.8"
zeroize = "=1.9.1"
