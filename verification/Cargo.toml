[package]
name = "gitview"
version = "0.1.0"
edition = "2021"
publish = false

[dependencies]
anyhow = "=1.0.104"
git2 = { version = "=0.21.0", default-features = false, features = ["cred"] }
serde = { version = "=1.0.229", features = ["derive"] }
serde_json = "=1.0.154"
