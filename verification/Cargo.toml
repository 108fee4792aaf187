[package]
name = "ief_lsp"
version = "0.1.0"
edition = "2021"
publish = false

[dependencies]
tree-sitter = "*"
tree-sitter-xml = "*"
lsp-types = "*"
lsp-server = "*"
serde = { version = "*", features = ["derive"] }
serde_json = "*"
log = "*"
