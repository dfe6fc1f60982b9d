[package]
name = "voice_rooms"
version = "0.1.0"
edition = "2021"
publish = false

[dependencies]
deadpool-postgres = "*"
eyre = "*"
futures = "*"
parking_lot = "*"
tokio = { version = "*", features = ["macros", "rt-multi-thread"] }
tokio-postgres = "*"
twilight-gateway = "*"
twilight-http = "*"
twilight-model = "*"
twilight-util = { version = "*", features = ["builder"] }
