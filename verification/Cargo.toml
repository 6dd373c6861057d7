[package]
name = "mdreader"
version = "0.1.0"
edition = "2021"
publish = false

[dependencies]
pulldown-cmark = "*"
tiny_http = "*"
tree-sitter = "*"
tree-sitter-highlight = "*"
tree-sitter-bash = "*"
tree-sitter-c = "*"
tree-sitter-cpp = "*"
tree-sitter-css = "*"
tree-sitter-elixir = "*"
tree-sitter-go = "*"
tree-sitter-html = "*"
tree-sitter-java = "*"
tree-sitter-javascript = "*"
tree-sitter-json = "*"
tree-sitter-python = "*"
tree-sitter-ruby = "*"
tree-sitter-rust = "*"
tree-sitter-toml-ng = "*"
tree-sitter-typescript = "*"
tree-sitter-yaml = "*"
