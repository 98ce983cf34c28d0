[package]
name = "rustle_my_net"
version = "0.1.0"
edition = "2021"
publish = false

[dependencies]
clap = "=2.34.0"
rand = "=0.3.23"
nalgebra = { version = "0.33", default-features = false, features = ["std"] }
serde = { version = "=1.0.229", features = ["derive"] }
serde_json = "=1.0.154"
log = "=0.3.9"
fern = "=0.3.5"
time = "=0.1.45"
