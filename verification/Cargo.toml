[package]
name = "daft"
version = "0.1.0"
edition = "2021"
publish = false

[dependencies]
chrono = { version = "0.4", features = ["serde"] }
serde = { version = "1", features = ["derive"] }
serde_json = "1"
clap = { version = "4", features = ["derive"] }
thiserror = "1"
walkdir = "2"
tempfile = "3"
libc = "0.2"
rayon = "1"
toml = "0.8"
