[package]
name = "cargo_neat"
version = "0.1.0"
edition = "2021"
publish = false

[dependencies]
termtree = "=1.0.0"
argh = "=0.1.19"
anyhow = "=1.0.104"
log = "=0.4.34"
pretty_env_logger = "=0.5.0"
toml = "*"
