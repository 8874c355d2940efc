[package]
name = "medit"
version = "0.1.0"
edition = "2021"
publish = false

[dependencies]
arboard = { version = "*", default-features = false }
crossterm = "*"
ignore = "*"
lsp-types = "*"
nucleo = "*"
serde = { version = "*", features = ["derive"] }
serde_json = "*"
syntect = { version = "*", default-features = false, features = ["default-fancy"] }
toml = "*"
