[package]
name = "iotscape"
version = "0.1.0"
edition = "2021"
publish = false

[dependencies]
tokio = { version = "1", features = ["net", "rt"] }
futures = "0.3"

[dev-dependencies]
serde_json = "1"
