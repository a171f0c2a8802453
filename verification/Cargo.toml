[package]
name = "termd"
version = "0.1.0"
edition = "2021"
publish = false

[dependencies]
anyhow = "1"
bytes = "1"
clap = { version = "4", features = ["derive"] }
hostname = "0.4"
hyper-util = { version = "0.1", features = ["tokio"] }
libc = "0.2"
libghostty-vt = "*"
nix = { version = "0.30", features = ["term", "process", "signal"] }
prost = "0.13"
prost-types = "0.13"
tokio = { version = "1", features = ["full"] }
tokio-stream = { version = "0.1", features = ["net", "sync"] }
tonic = "0.13"
tower = "0.5"
tracing = "0.1"
tracing-subscriber = { version = "0.3", features = ["env-filter"] }
unicode-width = "0.2"
uuid = { version = "1", features = ["v4"] }
