[package]
name = "nmdns"
version = "0.2.0"
edition = "2021"
publish = false

[dependencies]
hickory-proto = { version = "*", features = ["mdns"] }
fastrand = "2"
nix = { version = "0.30", features = ["fs", "hostname", "net", "process", "signal", "socket", "uio", "user"] }
socket2 = { version = "*", features = ["all"] }
tokio = { version = "1", features = ["io-util", "macros", "net", "rt", "rt-multi-thread", "signal", "sync", "time"] }
tokio-util = "0.7"
serde = { version = "1", features = ["derive"] }
toml = "*"
thiserror = "2"
clap = { version = "4", features = ["derive"] }
tracing = "0.1"
tracing-subscriber = { version = "0.3", features = ["env-filter"] }
