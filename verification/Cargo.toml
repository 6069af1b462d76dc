[package]
name = "docv-pdf"
version = "0.1.0"
edition = "2021"
publish = false

[dependencies]
flate2 = "=1.1.10"
chrono = "=0.4.45"
memmap2 = "=0.9.12"
clap = { version = "=4.6.7", features = ["derive"] }
tracing = "=0.1.44"
tracing-subscriber = "=0.3.23"

[dev-dependencies]
nom = "8"
