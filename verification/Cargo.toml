[package]
name = "ros2dreame"
version = "0.1.0"
edition = "2021"
publish = false

[dependencies]
env_logger = "*"
libc = "0.2"
log = "0.4"
ros2-client = "*"
serde = { version = "1", features = ["derive"] }
serde-big-array = "*"
