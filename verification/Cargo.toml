[package]
name = "router_core"
version = "0.1.0"
edition = "2021"
publish = false

[dependencies]
hyper = "0.14"
hex = "0.4"
uuid = "1"
serde = { version = "1", features = ["derive"] }
serde_json = "1"
futures = "0.3"
bytes = "1"
apollo-compiler = "*"

[dev-dependencies]
