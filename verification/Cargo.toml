[package]
name = "ast_cli"
version = "0.1.0"
edition = "2021"
publish = false

[dependencies]
tree-sitter = "0.26"
tree-sitter-rust = "*"
tree-sitter-cpp = "*"
tree-sitter-typescript = "*"
tree-sitter-python = "*"
tree-sitter-proto = "*"
clap = { version = "4", features = ["derive"] }
serde = { version = "1", features = ["derive"] }
serde_json = "1"
anyhow = "1"
