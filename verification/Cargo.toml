[package]
name = "eventservice"
version = "0.1.0"
edition = "2021"
publish = false

[dependencies]
sled = "0.34"
serde = { version = "1", features = ["derive"] }
serde_json = "1"
chrono = "0.4"
cloud-pubsub = "*"
futures = "0.3"
tokio = { version = "1", features = ["macros", "rt-multi-thread", "time"] }

[dev-dependencies]
tokio-test = "0.4"
