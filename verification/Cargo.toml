[package]
name = "gamecore"
version = "0.1.0"
edition = "2021"
publish = false

[dependencies]
sled = "=0.34.7"
rand = "=0.8.8"
bincode = "=1.3.3"
serde = { version = "=1.0.229", features = ["derive"] }
tokio = { version = "=1.54.1", features = ["full"] }
rapier2d = "0.7"
crossbeam = "0.8"
