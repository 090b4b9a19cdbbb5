[package]
name = "zeta"
version = "0.1.0"
edition = "2021"
publish = false

[dependencies]
anyhow = "*"
clap = { version = "*", features = ["derive"] }
env_logger = "*"
git2 = { version = "*", default-features = false }
log = "*"
serde = { version = "*", features = ["derive"] }
serde_json_lenient = "=0.2.4"
toml = "*"
tree-sitter = "=0.20.10"
tree-sitter-query = "=0.1.0"
url = "*"
user_dirs = "*"
