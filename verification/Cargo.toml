[package]
name = "majestic"
version = "0.1.0"
edition = "2021"
publish = false

[dependencies]
jiff = "*"
nickel-lang-core = { version = "*", default-features = false }
pulldown-cmark = { version = "*", default-features = false }
serde = { version = "1", features = ["derive"] }
serde_json = "1"
syntect = { version = "5", default-features = false, features = ["parsing", "regex-fancy"] }
tree-sitter = "*"
tree-sitter-highlight = "*"
tree-sitter-rust = "*"
two-face = { version = "*", default-features = false, features = ["syntect-fancy"] }
ureq = { version = "2", default-features = false, features = ["json"] }
