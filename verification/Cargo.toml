[package]
name = "rup"
version = "0.1.0"
edition = "2021"
publish = false

[dependencies]
tokio = { version = "=1.53.2", features = ["rt", "net", "time", "sync", "signal", "io-util", "macros"] }
clap = "=4.6.7"
socket2 = { version = "=0.5.10", features = ["all"] }
