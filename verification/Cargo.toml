[package]
name = "alvik"
version = "0.1.0"
edition = "2021"
publish = false

[dependencies]
embassy-sync = "=0.8.0"
esp-idf-svc = "=0.51.0"
futures = "=0.3.34"
log = "=0.4.34"
serde = { version = "=1.0.229", features = ["derive"] }
thiserror = "=2.0.21"
ucpack = "=0.1.3"

[dev-dependencies]
critical-section = { version = "=1.2.0", features = ["std"] }
