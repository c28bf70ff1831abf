[package]
name = "steamrunner"
version = "0.1.0"
edition = "2021"
publish = false

[dependencies]
clap = "2.34"
notify-rust = "4"
serde = { version = "1", features = ["derive"] }
serde_yaml = "0.8"
sixtyfps = { version = "0.1", default-features = false }
