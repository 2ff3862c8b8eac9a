[package]
name = "position_sync"
version = "0.1.0"
edition = "2021"
publish = false

[dependencies]
bytes = "1"
mini-redis = "0.4"
tokio = { version = "1", features = ["full"] }
uuid = { version = "1", features = ["v4"] }
ggez = "0.7"
gilrs = "0.8"
mint = "0.5"
noise = "0.7"
