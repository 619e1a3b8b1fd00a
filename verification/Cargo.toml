[package]
name = "ingress_engine"
version = "0.1.0"
edition = "2021"
publish = false

[dependencies]
bytes = "*"
tokio = { version = "*", features = ["full"] }
log = "*"
env_logger = "*"
serde = { version = "*", features = ["derive"] }
toml = "*"
thiserror = "*"
