[package]
name = "infused_modbus"
version = "0.1.0"
edition = "2021"
publish = false

[dependencies]
fuser = { version = "=0.18.0", default-features = false }
libc = "=0.2.191"
rcgen = "=0.14.10"
rustls = { version = "=0.23.46", default-features = false, features = ["ring", "std", "tls12", "logging"] }
serde = { version = "=1.0.229", features = ["derive"] }
tokio = { version = "=1.54.1", features = ["full"] }
tokio-rustls = { version = "=0.26.6", default-features = false, features = ["ring", "tls12", "logging"] }
tokio-serial = "=5.5.0"
toml = "=1.1.8"
