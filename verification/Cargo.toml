[package]
name = "rgb121"
version = "0.1.0"
edition = "2021"
publish = false

[dependencies]
amplify = "=3.13.0"
bitcoin = "=0.28.1"
bp-core = "=0.8.1"
chrono = "=0.4.22"
clap = { version = "=3.2.25", features = ["derive", "env"] }
colored = "=2.2.0"
commit_verify = "=0.8.3"
lnpbp = "=0.8.0"
rgb-std = { version = "=0.8.2", default-features = false, features = ["serde"] }
serde = { version = "=1.0.229", features = ["derive"] }
serde_json = "=1.0.154"
serde_with = "=1.14.0"
serde_yaml = "=0.8.26"
stens = "=0.7.1"
strict_encoding = "=0.8.2"
