[package]
name = "silos"
version = "0.1.0"
edition = "2021"
publish = false

[dependencies]
tree-sitter = "*"
tree-sitter-go = "*"
tree-sitter-c = "*"
tree-sitter-cpp = "*"
tree-sitter-javascript = "*"
tree-sitter-rust = "*"
kdl = "*"
hora = "*"
serde = { version = "*", features = ["derive"] }
serde_json = "*"
clap = { version = "*", features = ["derive"] }
anyhow = "*"
derive_more = { version = "*", features = ["display", "error"] }
tokio = { version = "*", features = ["rt-multi-thread", "macros", "io-std", "sync"] }
tower-lsp = "*"
tracing = "*"
tracing-subscriber = { version = "*", default-features = false, features = ["fmt"] }
