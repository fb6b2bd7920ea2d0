[package]
name = "oauth1_client"
version = "0.1.0"
edition = "2021"
publish = false

[dependencies]
base64 = "0.21"
flate2 = "1"
hmac = "0.12"
sha1 = "0.10"
rand = "0.8"
hyper = { version = "0.14", features = ["client", "http1", "tcp"] }
hyper-rustls = "0.24"
tokio = { version = "1", features = ["rt-multi-thread", "macros", "time", "io-std", "io-util"] }
