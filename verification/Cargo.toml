[package]
name = "garmata"
version = "0.1.0"
edition = "2021"
publish = false

[dependencies]
async-std = "1"
chrono = "0.4"
clap = { version = "4", features = ["derive"] }
native-tls = "0.2"
serde = { version = "1", features = ["derive"] }
serde_yaml = "0.9"
trust-dns-resolver = "0.23"
url = "2"
