[package]
name = "pirtm"
version = "0.1.0"
edition = "2021"
publish = false

[dependencies]
sha2 = "0.10"
hex = "0.4"
num-rational = "0.4"
num-bigint = "0.4"
num-traits = "0.2"
serde = { version = "1", features = ["derive"] }
serde_json = "1"
serde_yaml = "0.9"
thiserror = "1"
toml = "0.8"
anyhow = "1"
log = "0.4"
p3-field = "*"
p3-goldilocks = "*"
p3-symmetric = "*"
nalgebra = "0.33"
tree-sitter = "*"
clap = { version = "4", features = ["derive"] }
