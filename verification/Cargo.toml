[package]
name = "bokuteki"
version = "0.1.0"
edition = "2021"
publish = false

[dependencies]
clap = { version = "*", features = ["derive"] }
log = "*"
lsp-server = "*"
lsp-types = "*"
serde_json = "*"
simplelog = "*"
uuid = { version = "*", features = ["v4"] }
