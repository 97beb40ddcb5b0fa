[package]
name = "canopy"
version = "0.1.0"
edition = "2021"
publish = false

[dependencies]
clap = { version = "4", features = ["derive"] }
colored = "*"
crossbeam-channel = "0.5"
globset = "0.4"
hex = "0.4"
ignore = "0.4"
pulldown-cmark = "*"
rayon = "1"
reqwest = { version = "*", default-features = false, features = ["blocking", "json"] }
rusqlite = { version = "*", features = ["bundled"] }
serde = { version = "1", features = ["derive"] }
serde_json = "1"
sha2 = "0.10"
thiserror = "*"
tiktoken-rs = "*"
toml = "*"
tree-sitter = "*"
tree-sitter-go = "*"
tree-sitter-javascript = "*"
tree-sitter-python = "*"
tree-sitter-rust = "*"
tree-sitter-typescript = "*"

[dev-dependencies]
tempfile = "3"
