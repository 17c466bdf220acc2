[package]
name = "loanwords"
version = "0.1.0"
edition = "2021"
publish = false

[dependencies]
trigram = "=0.4.4"
serde = { version = "=1.0.229", features = ["derive"] }
serde_json = "=1.0.154"
rand = "=0.8.8"
log = "=0.4.35"
pretty_env_logger = "=0.5.0"
url = "=2.5.8"
tokio = { version = "=1.54.1", features = ["rt-multi-thread", "macros"] }
axum = "=0.6.20"
teloxide = { version = "=0.12.2", default-features = false, features = ["ctrlc_handler", "rustls", "webhooks-axum"] }
takecell = "=0.1.1"
