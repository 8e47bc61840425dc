[package]
name = "ishtar"
version = "0.1.0"
edition = "2021"
publish = false

[dependencies]
gapbuf = "*"
unicode-normalization = "*"
ratatui = "*"
copypasta = "*"
chrono = "*"
tachyonfx = "*"
tree-sitter = "*"
tree-sitter-highlight = "*"
tree-sitter-javascript = "*"
