[package]
name = "nephelios"
version = "0.1.0"
edition = "2021"
publish = false

[dependencies]
bollard = "=0.21.1"
chrono = { version = "=0.4.45", features = ["serde", "clock"] }
dirs = "=7.0.0"
dotenv = "=0.15.0"
futures = "=0.3.34"
futures-util = "=0.3.34"
lazy_static = "=1.5.1"
prometheus = "=0.14.0"
regex = "=1.13.1"
serde = { version = "=1.0.229", features = ["derive"] }
serde_json = "=1.0.151"
tar = "=0.4.46"
tokio = { version = "=1.53.2", features = ["full"] }
walkdir = "=2.5.0"
warp = { version = "=0.4.3", features = ["server", "websocket"] }
