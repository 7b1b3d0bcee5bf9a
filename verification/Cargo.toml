[package]
name = "fuiz"
version = "0.1.0"
edition = "2021"
publish = false

[dependencies]
actix-cors = "=0.7.2"
actix-web = "=4.18.1"
actix-ws = "=0.4.0"
bytes = "=1.12.1"
chrono = "=0.4.45"
ciborium = "=0.2.2"
fastrand = "=2.5.0"
figment = { version = "=0.10.19", features = ["toml", "env"] }
futures-util = "=0.3.34"
garde = { version = "=0.23.0", features = ["derive"] }
heck = "=0.5.0"
itertools = "=0.15.0"
log = "=0.4.35"
parking_lot = "=0.13.0"
pluralizer = "=0.6.0"
pretty_env_logger = "=0.5.0"
rustc-hash = "=2.1.3"
rustrict = "=0.7.39"
serde = { version = "=1.0.229", features = ["derive"] }
serde_json = "=1.0.154"
thiserror = "=2.0.21"
web-time = "*"
worker = "=0.8.7"
