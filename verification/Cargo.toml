[package]
name = "piranha_cs"
version = "0.1.0"
edition = "2021"
publish = false

[dependencies]
tree-sitter = "=0.20.10"
tree-sitter-java = "=0.20.2"
regex = "=1.13.1"
serde = { version = "=1.0.229", features = ["derive"] }
toml = "=0.5.11"
clap = { version = "=4.6.7", features = ["derive"] }

[dev-dependencies]
tree-sitter-go = "=0.20.0"
tree-sitter-kotlin = "=0.3.1"
