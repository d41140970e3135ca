[package]
name = "jay_core"
version = "0.1.0"
edition = "2021"
publish = false

[dependencies]
uapi = "*"
ahash = "*"
bincode = { version = "*", features = ["derive"] }
clap = { version = "*", features = ["derive"] }
clap_complete = "*"
thiserror = "*"
