[package]
name = "data_acquisition"
version = "0.1.0"
edition = "2021"
publish = false

[dependencies]
chrono = "=0.4.45"
clap = "=2.34.0"
indicatif = "0.17"
rayon = "=1.12.0"
slog = "=2.8.2"
slog-async = "=2.8.0"
slog-term = "=2.9.2"
ureq = "=2.12.1"
