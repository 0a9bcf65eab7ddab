[package]
name = "lls"
version = "0.1.0"
edition = "2021"
publish = false

[dependencies]
clap = { version = "*", features = ["derive"] }
dirs = "*"
lsp-server = "*"
lsp-types = "*"
serde = { version = "*", features = ["derive"] }
serde_json = "*"
