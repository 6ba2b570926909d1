[package]
name = "agent_mail_guard"
version = "0.1.0"
edition = "2021"
publish = false

[dependencies]
chrono = { version = "0.4", default-features = false, features = ["std", "clock"] }
fs2 = "0.4"
git2 = { version = "0.20", default-features = false }
globset = "0.4"
jsonwebtoken = { version = "10", default-features = false }
serde_json = "1"
thiserror = "2"
tracing = "0.1"
