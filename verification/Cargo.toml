[package]
name = "micro_proxy"
version = "0.1.0"
edition = "2021"
publish = false

[dependencies]
chrono = "*"
clap = { version = "*", features = ["derive"] }
dumbo_log = "*"
log = "*"
pathdiff = "*"
regex = "*"
serde = { version = "*", features = ["derive"] }
serde_yaml = "*"
sha2 = "*"
thiserror = "*"
walkdir = "*"
