[package]
name = "public_ip"
version = "0.1.0"
edition = "2021"
publish = false

[dependencies]
bytes = "*"
hickory-client = "*"
hickory-proto = "*"
http = "*"
http-body-util = "*"
hyper = { version = "*", features = ["http1", "client"] }
hyper-util = { version = "*", features = ["client", "client-legacy", "http1", "tokio"] }
once_cell = "*"
tokio = { version = "*", features = ["rt-multi-thread", "time", "net"] }
