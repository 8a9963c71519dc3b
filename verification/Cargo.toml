[package]
name = "sparrow"
version = "0.1.0"
edition = "2021"
publish = false

[dependencies]
ansi_term = "0.12"
chrono = { version = "0.4", features = ["serde"] }
clap = "2"
dirs = "3"
libnotify = "1"
notify = "4"
serde = { version = "1", features = ["derive"] }
serde_yaml = "0.8"
