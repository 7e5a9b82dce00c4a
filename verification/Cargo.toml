[package]
name = "mail_sink"
version = "0.1.0"
edition = "2021"
publish = false

[dependencies]
bincode = "1.3"
clap = { version = "4", features = ["derive"] }
clap-help = "1"
colored = "2"
mailparse = "0.15"
num_cpus = "1"
percent-encoding = "2"
psutil = "3"
rustls-pemfile = "1"
serde = { version = "1", features = ["derive"] }
serde_json = "1"
sled = "0.34"
sysinfo = "0.31"
tokio = { version = "1", features = ["full"] }
tokio-rustls = "0.24"
url = "2"
