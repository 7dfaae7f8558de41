[package]
name = "quartz_core"
version = "0.1.0"
edition = "2021"
publish = false

[dependencies]
hyper = { version = "0.14", features = ["client", "http1", "http2", "tcp", "runtime"] }
hyper-tls = "0.5"
tokio = { version = "1", features = ["macros", "rt-multi-thread", "io-std", "io-util"] }
clap = { version = "4", features = ["derive"] }
serde = { version = "1", features = ["derive"] }
toml = "0.8"
chrono = "0.4"
colored = "2"
console = "0.15"
thiserror = "1"
