[package]
name = "mavlink_shouter"
version = "0.1.0"
edition = "2021"
publish = false

[dependencies]
anyhow = "1"
clap = { version = "4", features = ["derive"] }
config = { version = "0.14", default-features = false, features = ["yaml"] }
env_logger = "0.11"
futures = "0.3"
futures-sink = "0.3"
log = "0.4"
parking_lot = "0.12"
quick-xml = "0.31"
rand = "0.8"
serde = { version = "1", features = ["derive"] }
thiserror = "1"
tokio = { version = "1", features = ["macros", "net", "rt-multi-thread", "signal", "sync"] }
tokio-stream = "0.1"
tokio-util = { version = "0.7", features = ["codec", "net"] }
