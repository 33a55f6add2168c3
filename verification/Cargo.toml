[package]
name = "athas_core"
version = "0.1.0"
edition = "2021"
publish = false

[dependencies]
lsp-types = "*"
sha256 = "*"
serde = { version = "*", features = ["derive"] }
serde_json = "*"
