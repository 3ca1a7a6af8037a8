[package]
name = "anchor"
version = "0.1.0"
edition = "2021"
publish = false

[dependencies]
petgraph = "*"
serde_json = "*"
tree-sitter = "*"
tree-sitter-rust = "*"
tree-sitter-python = "*"
tree-sitter-javascript = "*"
tree-sitter-typescript = "*"
tree-sitter-go = "*"
tree-sitter-java = "*"
tree-sitter-c-sharp = "*"
tree-sitter-ruby = "*"
tree-sitter-cpp = "*"
tree-sitter-swift = "*"
clap = { version = "*", features = ["derive"] }
ignore = "*"
rayon = "*"
