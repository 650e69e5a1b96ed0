[package]
name = "hord"
version = "0.1.0"
edition = "2021"
publish = false

[dependencies]
bytes = "1"
http-body = "1"
http-body-util = "0.1"
hyper = { version = "1", features = ["client", "http1", "server"] }
hyper-util = { version = "0.1", features = ["tokio"] }
log = "0.4"
rdma-mummy-sys = "*"
sideway = "*"
tokio = { version = "1", features = ["full"] }
