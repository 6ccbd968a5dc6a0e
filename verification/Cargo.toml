[package]
name = "silent_cartographer"
version = "0.1.0"
edition = "2021"
publish = false

[dependencies]
sha2 = "0.10"
anyhow = "1"
thiserror = "1"
clap = { version = "4", features = ["derive"] }
clap_complete = "4"
serde = { version = "1", features = ["derive"] }
serde_json = "1"
rusqlite = { version = "*", features = ["bundled"] }
sqlite-vec = "*"
tree-sitter = "*"
tree-sitter-rust = "*"
tree-sitter-python = "*"
proctitle = "*"
