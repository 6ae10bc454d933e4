[package]
name = "cmsis_pack"
version = "0.1.0"
edition = "2021"
publish = false

[dependencies]
minidom = "=0.11.1"
hyper = { version = "=0.14.32", features = ["client", "http1", "tcp"] }
futures = "=0.3.34"
slog = "=2.8.2"
