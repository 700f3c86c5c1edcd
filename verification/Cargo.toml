[package]
name = "my_daily_newspaper"
version = "0.1.0"
edition = "2021"
publish = false

[dependencies]
base64 = "0.22"
chrono = { version = "0.4", default-features = false, features = ["clock", "std"] }
qrcode = { version = "0.14", default-features = false, features = ["svg"] }
regex = "1"
url = "2"
serde = { version = "1", features = ["derive"] }
tokio = { version = "1", features = ["process", "time", "rt", "macros", "io-util"] }
