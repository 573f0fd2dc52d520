[package]
name = "rust_just_rates"
version = "0.1.0"
edition = "2021"
publish = false

[dependencies]
simple-websockets = "=0.1.6"

[dev-dependencies]
tungstenite = "=0.19.0"
