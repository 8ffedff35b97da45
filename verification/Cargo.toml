[package]
name = "prompt_pilot"
version = "1.1.0"
edition = "2021"
publish = false

[dependencies]
anyhow = "1"
crossterm = "0.28"
futures = "0.3"
ratatui = "0.29"
reqwest = { version = "0.12", default-features = false, features = ["json"] }
serde = { version = "1", features = ["derive"] }
serde_json = "1"
textwrap = "0.16"
tokio = { version = "1", features = ["fs", "rt", "sync", "time"] }
toml = "0.9"
tracing = "0.1"
url = "2"
uuid = { version = "1", features = ["v4"] }
