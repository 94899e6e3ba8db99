[package]
name = "memobreeze"
version = "0.1.0"
edition = "2021"
publish = false

[dependencies]
anyhow = "1"
base64 = "0.22"
chrono = { version = "0.4", default-features = false, features = ["std", "clock"] }
directories = "5"
linfa = "0.7"
linfa-clustering = "0.7"
ndarray = "0.15"
once_cell = "1"
parking_lot = "0.12"
rand_core = "0.6"
rand_xoshiro = "0.6"
reqwest = { version = "0.12", default-features = false, features = ["json"] }
serde = { version = "1", features = ["derive"] }
serde_json = "1"
sha2 = "0.10"
tokio = { version = "1", features = ["rt", "net", "time", "io-util"] }
tracing = "0.1"
url = "2"
uuid = { version = "1", features = ["v4"] }
