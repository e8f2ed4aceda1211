[package]
name = "ddc_api"
version = "0.1.0"
edition = "2021"
publish = false

[dependencies]
prost = "=0.13.5"
blake2 = "=0.10.6"
hex = "=0.4.3"
parity-scale-codec = { version = "=3.7.5", features = ["derive"] }
scale-info = { version = "=2.11.6", features = ["derive"] }
serde = { version = "=1.0.229", features = ["derive"] }
serde_with = { version = "=3.24.0", features = ["base64"] }
log = "=0.4.35"
sp-runtime = "*"
sp-io = "*"
