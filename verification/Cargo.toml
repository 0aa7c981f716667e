[package]
name = "canvas_engine"
version = "0.1.0"
edition = "2021"
publish = false

[dependencies]
lz4_flex = "=0.14.0"
bytes = "=1.12.1"
fastrand = "=2.5.0"
smallvec = "=1.16.4"
glam = "=0.34.1"
anyhow = "=1.0.104"
log = "=0.4.34"
pretty_env_logger = "=0.5.0"
serde = { version = "=1.0.229", features = ["derive"] }
serde_json = "=1.0.154"
tokio = { version = "=1.54.1", features = ["rt-multi-thread", "net", "time", "sync", "macros", "io-util", "io-std", "fs"] }
tokio-util = "=0.7.20"
tokio-websockets = { version = "=0.13.3", features = ["server", "sha1_smol"] }
futures-util = { version = "=0.3.34", features = ["sink"] }
rusqlite = { version = "=0.41.0", features = ["bundled"] }
