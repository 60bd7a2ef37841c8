[package]
name = "rustberry"
version = "0.1.0"
edition = "2021"
publish = false

[dependencies]
confy = "=2.0.0"
dht22_pi = "=1.0.0"
rand = "=0.10.3"
rppal = { version = "=0.13.1", features = ["hal"] }
rppal-dht11 = "=0.4.0"
serde = { version = "=1.0.229", features = ["derive"] }
serde_json = "=1.0.151"
