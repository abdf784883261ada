[package]
name = "mediarepo"
version = "0.1.0"
edition = "2021"
publish = false

[dependencies]
chrono = { version = "=0.4.45", default-features = false, features = ["clock", "std"] }
futures = "=0.3.34"
image = { version = "=0.24.9", default-features = false, features = ["png", "jpeg"] }
mime = "=0.3.17"
mime_guess = "=2.0.5"
parking_lot = "=0.12.5"
rmp = "=0.8.9"
rmp-ipc = "=0.8.2"
sea-orm = { version = "*", default-features = false }
serde = { version = "=1.0.229", features = ["derive"] }
serde_json = "=1.0.154"
sha2 = "=0.10.9"
tokio = { version = "=1.54.1", features = ["fs", "io-util", "rt", "sync", "time"] }
tracing = "=0.1.44"
url = "=2.5.8"
