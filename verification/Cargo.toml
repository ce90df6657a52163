[package]
name = "stickies"
version = "0.1.0"
edition = "2021"
publish = false

[dependencies]
gtk4 = { version = "=0.11.5", features = ["v4_16"] }
libadwaita = { version = "=0.9.2", features = ["v1_8"] }
serde = { version = "=1.0.229", features = ["derive"] }
serde_json = "=1.0.154"
