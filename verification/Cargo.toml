[package]
name = "circulation"
version = "0.1.0"
edition = "2021"
publish = false

[dependencies]
time = "0.1"
postgres = "0.19"
iron = "0.6"
router = "0.6"
mount = "0.4"
staticfile = "0.5"
persistent = "0.4"
bodyparser = "0.8"
logger = "0.4"
hyper = "0.10"
url = "1"
lazy_static = "1"
serde = { version = "1", features = ["derive"] }
serde_json = "1"
