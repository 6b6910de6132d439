[package]
name = "dbml_language_server"
version = "0.1.0"
edition = "2021"
publish = false

[dependencies]
anyhow = "*"
env_logger = "*"
log = "*"
once_cell = "*"
tokio = { version = "*", features = ["full"] }
tower-lsp = "*"
tree-sitter = "*"
url = "*"
