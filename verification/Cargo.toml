[package]
name = "waydriver"
version = "0.1.0"
edition = "2021"
publish = false

[dependencies]
async-trait = "0.1"
atspi = { version = "0.29", features = ["proxies", "tokio"] }
gstreamer = "0.23"
gstreamer-app = "0.23"
libc = "0.2"
sxd-document = "0.3"
sxd-xpath = "0.4"
thiserror = "2"
tokio = { version = "1", features = ["io-util", "macros", "process", "rt-multi-thread", "sync", "time"] }
tokio-util = "0.7"
tracing = "0.1"
zbus = { version = "5", default-features = false, features = ["tokio"] }
