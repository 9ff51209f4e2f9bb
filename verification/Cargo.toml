[package]
name = "imagedb"
version = "0.1.0"
edition = "2021"
publish = false

[dependencies]
bytes = "1"
clap = "4"
http-body-util = "0.1"
hyper = { version = "1", features = ["full"] }
hyper-tls = "0.6"
hyper-util = { version = "0.1", features = ["full"] }
log = "0.4"
log4rs = "1"
serde = { version = "1", features = ["derive"] }
serde_derive = "1"
serde_json = "1"
tokio = { version = "1", features = ["full"] }
