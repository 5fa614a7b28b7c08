[package]
name = "svn"
version = "0.1.0"
edition = "2021"
publish = false

[dependencies]
flate2 = "=1.1.10"
hex = "=0.4.3"
hmac = "=0.12.1"
lz4_flex = "=0.14.0"
md-5 = "=0.10.6"
russh = { version = "=0.65.0", default-features = false, features = ["ring", "rsa"] }
serde = { version = "1", features = ["derive"] }
tokio = { version = "=1.54.1", features = ["fs", "io-util", "net", "rt", "sync", "time"] }
tracing = "=0.1.44"
