[package]
name = "person_detector"
version = "0.1.0"
edition = "2021"
publish = false

[dependencies]
chrono = "*"
opencv = "*"
rumqttc = "*"
tokio = { version = "*", features = ["macros", "rt-multi-thread", "time"] }
