[package]
name = "pusa_ui"
version = "0.1.0"
edition = "2021"
publish = false

[dependencies]
keyboard-types = "0.7"
serde = { version = "1", features = ["derive"] }
serde_json = "1"
webbrowser = "1"
