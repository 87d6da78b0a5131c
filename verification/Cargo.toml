[package]
name = "scala_to_kotlin"
version = "0.1.0"
edition = "2021"
publish = false

[dependencies]
tree-sitter = "*"
tree-sitter-scala = "*"
