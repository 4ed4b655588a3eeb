[package]
name = "finanzbuch"
version = "0.1.0"
edition = "2021"
publish = false

[dependencies]
chrono = "=0.4.45"
fxhash = "=0.2.1"
serde = { version = "=1.0.229", features = ["derive"] }
serde_yaml = "=0.9.34"
csv = "=1.4.0"
dirs = "=5.0.1"
dialoguer = "=0.11.0"
tinyrand = "=0.5.0"
tinyrand-std = "=0.5.0"
rgb = "=0.8.53"
textplots = "=0.8.7"
lazy_static = "=1.5.1"
