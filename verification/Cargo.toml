[package]
name = "rustyping"
version = "0.1.0"
edition = "2021"
publish = false

[dependencies]
prometheus = "0.13"
clap = "2"
fastping-rs = "0.2"
hyper = { version = "0.14", features = ["full"] }
tokio = { version = "1", features = ["full"] }
nix = "0.20"
redis = "0.21"
lazy_static = "1"
slog = "2"
slog-term = "2"
slog-async = "2"
slog-envlogger = "2"
