[package]
name = "aharc"
version = "0.1.0"
edition = "2021"
publish = false

[dependencies]
serde_json = "1"
html-escape = "0.2"
rayon = "1"
chrono = "0.4"
anyhow = "1"
tracing = "0.1"
tracing-subscriber = { version = "0.3", features = ["env-filter"] }
clap = { version = "4", features = ["derive", "env"] }
