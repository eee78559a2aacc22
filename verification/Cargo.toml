[package]
name = "dify_console"
version = "0.1.0"
edition = "2021"
publish = false

[dependencies]
base64 = "=0.22.1"
clap = { version = "=4.6.7", features = ["derive"] }
dirs = "=5.0.1"
regex = "=1.13.1"
reqwest = { version = "=0.12.28", default-features = false, features = ["json", "rustls-tls"] }
rpassword = "=7.5.4"
serde = { version = "=1.0.229", features = ["derive"] }
serde_json = { version = "=1.0.154", features = ["float_roundtrip"] }
serde_yaml = "=0.9.34"
tokio = { version = "=1.54.1", features = ["macros", "rt-multi-thread"] }
walkdir = "=2.5.0"
