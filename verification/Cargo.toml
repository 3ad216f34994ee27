[package]
name = "homenet"
version = "0.1.0"
edition = "2021"
publish = false

[dependencies]
chrono = "0.4"
mdns-sd = "0.11"
serde = { version = "1", features = ["derive"] }
serde_json = "1"
uuid = { version = "1", features = ["v4"] }
local-ip-address = "0.6"
