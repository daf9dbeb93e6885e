[package]
name = "wtcd"
version = "0.1.0"
edition = "2021"
publish = false

[dependencies]
anyhow = "=1.0.104"
chrono = "=0.4.45"
clap = { version = "=4.6.7", features = ["derive"] }
gix = "=0.90.0"
globset = "=0.4.21"
ignore = "=0.4.34"
rmcp = { version = "=3.8.0", features = ["server", "macros", "transport-io"] }
schemars = "=1.2.3"
serde = { version = "=1.0.229", features = ["derive"] }
serde_json = "=1.0.154"
sha2 = "=0.11.1"
thiserror = "=2.0.21"
tokio = { version = "=1.54.1", features = ["full"] }
tracing = "=0.1.44"
tracing-subscriber = { version = "=0.3.23", features = ["env-filter"] }
tree-sitter = "=0.27.1"
tree-sitter-c = "=0.24.2"
tree-sitter-c-sharp = "=0.23.5"
tree-sitter-cpp = "=0.23.4"
tree-sitter-dart = "=0.3.0"
tree-sitter-go = "=0.25.0"
tree-sitter-javascript = "=0.25.0"
tree-sitter-python = "=0.25.0"
tree-sitter-rust = "=0.24.2"
tree-sitter-swift = "=0.7.4"
tree-sitter-typescript = "=0.23.2"
tree-sitter-zig = "=1.1.2"
uuid = { version = "=1.29.0", features = ["v4"] }
yaml_serde = "=0.10.7"
