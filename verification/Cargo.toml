[package]
name = "sniffer_core"
version = "0.1.0"
edition = "2021"
publish = false

[dependencies]
libc = "0.2"
nix = { version = "0.30", features = ["net", "socket"] }
tokio = { version = "1", features = ["rt", "net", "time", "macros", "sync", "io-util"] }
tokio-io-timeout = "1"
tokio-util = "0.7"
tracing = "0.1"
