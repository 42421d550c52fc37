[package]
name = "intersection_controller"
version = "0.1.0"
edition = "2021"
publish = false

[dependencies]
chrono = "=0.4.45"
colored = "=3.1.1"
config = { version = "=0.15.27", default-features = false, features = ["toml"] }
crossbeam-channel = "=0.5.17"
failure = "=0.1.8"
fern = { version = "=0.7.1", features = ["colored"] }
log = "=0.4.34"
mqtt311 = "=0.2.0"
rumqtt = "=0.30.1"
serde = { version = "=1.0.229", features = ["derive"] }

[dev-dependencies]
regex = "=1.13.1"
