[package]
name = "factory_simulation"
version = "0.1.0"
edition = "2021"
publish = false

[dependencies]
lapin = "2"
tokio-amqp = "=2.0.0"
tokio = { version = "=1.53.2", features = ["rt-multi-thread", "macros", "time"] }
crossbeam-channel = "=0.5.17"

[dev-dependencies]
serde_json = "=1.0.151"
