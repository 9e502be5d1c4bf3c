[package]
name = "rust_doc_tool"
version = "0.1.0"
edition = "2021"
publish = false

[dependencies]
anyhow = "*"
clap = { version = "*", features = ["derive"] }
dialoguer = "*"
env_logger = "*"
log = "*"
serde = { version = "*", features = ["derive"] }
serde_json = "*"
shellexpand = "*"
syn = { version = "*", features = ["full"] }
thiserror = "*"
walkdir = "*"
