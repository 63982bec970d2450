[package]
name = "reliable_udp"
version = "0.1.0"
edition = "2021"
publish = false

[dependencies]
async-trait = "=0.1.92"
rand = "=0.8.8"
serde = { version = "=1.0.229", features = ["derive"] }
strict-num = "=0.2.0"
tokio = { version = "=1.54.1", features = ["net", "sync", "rt"] }
