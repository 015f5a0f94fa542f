[package]
name = "akuna_core"
version = "0.1.0"
edition = "2021"
publish = false

[dependencies]
quick-xml = "*"
tree-sitter = "*"
tree-sitter-bash = "*"
tree-sitter-c = "*"
tree-sitter-c-sharp = "*"
tree-sitter-containerfile = "*"
tree-sitter-cpp = "*"
tree-sitter-css = "*"
tree-sitter-dart = "*"
tree-sitter-go = "*"
tree-sitter-graphql = "*"
tree-sitter-groovy = "*"
tree-sitter-hcl = "*"
tree-sitter-html = "*"
tree-sitter-java = "*"
tree-sitter-javascript = "*"
tree-sitter-json = "*"
tree-sitter-lua = "*"
tree-sitter-md = "*"
tree-sitter-php = "*"
tree-sitter-python = "*"
tree-sitter-ruby = "*"
tree-sitter-rust = "*"
tree-sitter-scala = "*"
tree-sitter-scss = "*"
tree-sitter-sequel = "*"
tree-sitter-svelte-next = "*"
tree-sitter-swift = "*"
tree-sitter-typescript = "*"
tree-sitter-yaml = "*"
