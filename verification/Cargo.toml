[package]
name = "double_riichi_server"
version = "0.1.0"
edition = "2021"
publish = false

[dependencies]
argon2 = "=0.5.3"
base64 = "=0.22.1"
rand = "=0.8.8"
rpassword = "=7.5.4"
serde = { version = "=1.0.229", features = ["derive"] }
serde_json = "=1.0.154"
sha2 = "=0.10.9"
thiserror = "=2.0.21"
tokio = { version = "1", default-features = false, features = ["sync"] }
toml = "=0.8.23"
url = "=2.5.8"
