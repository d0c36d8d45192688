[package]
name = "spotijay"
version = "0.1.0"
edition = "2021"
publish = false

[dependencies]
serde = { version = "=1.0.229", features = ["derive"] }
serde_json = "=1.0.154"
async-std = "=1.13.2"
async-tungstenite = { version = "=0.35.0", features = ["async-std-runtime"] }
futures = "=0.3.34"
rusqlite = { version = "=0.40.2", features = ["bundled"] }
r2d2 = "=0.8.10"
r2d2_sqlite = "=0.35.0"
dotenv = "=0.15.0"
env_logger = "=0.11.11"
url = "2"
