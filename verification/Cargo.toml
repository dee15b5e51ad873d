[package]
name = "ace_tun"
version = "0.1.0"
edition = "2021"
publish = false

[dependencies]
base64 = "0.22"
ipstack = "*"
libc = "0.2"
netlink-packet-core = "0.7"
netlink-packet-route = "0.19"
netlink-packet-sock-diag = "0.4"
netlink-sys = "0.8"
regex = "1"
thiserror = "2"
tokio = { version = "1", features = ["io-util", "net", "rt-multi-thread", "sync", "time"] }
tracing = "0.1"
