[package]
name = "opsmap"
version = "0.1.0"
edition = "2021"
publish = false

[dependencies]
serde_json = "*"
chrono = "*"
uuid = { version = "*", features = ["v4"] }
hostname = "*"
serde = { version = "*", features = ["derive"] }
serde_yaml = "*"
anyhow = "*"
clap = { version = "*", features = ["derive"] }
tokio = { version = "*", features = ["rt-multi-thread", "macros", "sync", "time", "net", "process", "io-util", "signal"] }
tokio-tungstenite = { version = "*", features = ["native-tls"] }
futures-util = "*"
axum = { version = "*", features = ["ws"] }
native-tls = "*"
nix = { version = "*", features = ["process", "signal", "user", "fs"] }
libc = "*"
sysinfo = "*"
reqwest = { version = "*", default-features = false, features = ["blocking"] }
tracing = "*"
tracing-subscriber = { version = "*", features = ["env-filter"] }
