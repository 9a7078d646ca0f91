[package]
name = "codelldb"
version = "0.1.0"
edition = "2021"
publish = false

[dependencies]
serde_json = "1"
tokio = { version = "1", features = ["rt-multi-thread", "net", "io-util", "io-std", "time", "macros", "sync"] }
tokio-util = { version = "0.7", features = ["codec"] }
clap = "3"
libc = "0.2"
backtrace = "0.3"
log = "0.4"
