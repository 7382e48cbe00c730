[package]
name = "quickshot"
version = "0.1.0"
edition = "2021"
publish = false

[dependencies]
ashpd = "0.10"
chrono = "0.4"
clap = { version = "4", features = ["derive"] }
dirs = "5"
gtk4 = { version = "0.9", features = ["v4_10"] }
image = { version = "0.25", default-features = false, features = ["png"] }
pangocairo = "0.20"
serde = { version = "1", features = ["derive"] }
tokio = { version = "1", features = ["rt"] }
toml = "0.8"
