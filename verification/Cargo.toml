[package]
name = "railscale"
version = "0.1.0"
edition = "2021"
publish = false

[dependencies]
bytes = "1"
memchr = "2"
rayon = "1"
tokio = { version = "1", features = ["full"] }
tokio-util = { version = "0.7", features = ["codec"] }
tokio-stream = "0.1"
tracing = "0.1"
tracing-subscriber = "0.3"
async-trait = "0.1"
pin-project-lite = "0.2"
sysinfo = "*"
opentelemetry = { version = "*", features = ["metrics"] }
