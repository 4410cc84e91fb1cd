[package]
name = "arbor"
version = "0.1.0"
edition = "2021"
publish = false

[dependencies]
anyhow = "1"
bincode = "1"
clap = { version = "4", features = ["derive"] }
colored = "2"
futures-util = "0.3"
indicatif = "0.17"
notify = "6"
petgraph = "0.6"
serde = { version = "1", features = ["derive"] }
serde_json = "1"
sled = "0.34"
thiserror = "1"
tokio = { version = "1", features = ["full"] }
tokio-tungstenite = "0.21"
tracing = "0.1"
tracing-subscriber = "0.3"
tree-sitter = "0.22"
tree-sitter-c = "0.21"
tree-sitter-c-sharp = "0.21"
tree-sitter-cpp = "0.22"
tree-sitter-dart = "0.0.4"
tree-sitter-go = "0.21"
tree-sitter-java = "0.21"
tree-sitter-python = "0.21"
tree-sitter-rust = "0.21"
tree-sitter-typescript = "0.21"
