[package]
name = "aitelebot"
version = "0.1.0"
edition = "2021"
publish = false

[dependencies]
anyhow = "1"
log = "0.4"
ollama-rs = { version = "=0.1.9", features = ["stream", "chat-history"] }
pretty_env_logger = "0.5"
takecell = "=0.1.1"
teloxide = { version = "=0.12.2", features = ["macros"] }
tokio = { version = "1", features = ["full"] }
tokio-stream = "0.1"
