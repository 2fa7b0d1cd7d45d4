[package]
name = "nova_monitor"
version = "0.1.0"
edition = "2021"
publish = false

[dependencies]
sysinfo = "*"
libc = "*"
nvml-wrapper = "*"
serde = { version = "*", features = ["derive"] }
