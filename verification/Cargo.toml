[package]
name = "nlauncher"
version = "0.1.0"
edition = "2021"
publish = false

[dependencies]
anyhow = "=1.0.104"
dirs = "=7.0.0"
env_logger = "=0.11.11"
gtk4 = { version = "=0.11.5", features = ["v4_12"] }
gtk4-layer-shell = "=0.8.1"
keepass = "=0.7.33"
log = "=0.4.34"
numbat = "=1.24.0"
serde = { version = "=1.0.229", features = ["derive"] }
serde_json = "=1.0.154"
socket2 = "=0.6.5"

[dev-dependencies]
keepass = { version = "=0.7.33", features = ["save_kdbx4"] }
