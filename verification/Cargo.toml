[package]
name = "car_writer"
version = "0.1.0"
edition = "2021"
publish = false

[dependencies]
cid = "=0.11.3"
tokio = { version = "=1.54.1", features = ["io-util", "rt", "rt-multi-thread"] }
