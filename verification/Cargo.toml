[package]
name = "marky"
version = "0.1.0"
edition = "2021"
publish = false

[dependencies]
anyhow = "=1.0.104"
async-trait = "=0.1.92"
blake3 = "=1.8.7"
dashmap = "=6.2.1"
ollama-rs = "=0.3.6"
rust-bert = { version = "=0.23.0", default-features = false }
serde = { version = "=1.0.229", features = ["derive"] }
serde_json = "=1.0.154"
tokio = { version = "=1.54.1", features = ["rt-multi-thread", "macros", "io-std", "sync"] }
tower-lsp = "=0.20.0"
tree-sitter = "=0.19.5"
tree-sitter-markdown = "=0.7.1"
