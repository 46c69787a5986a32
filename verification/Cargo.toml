[package]
name = "git_extra"
version = "0.1.0"
edition = "2021"
publish = false

[dependencies]
clap = { version = "*", features = ["derive"] }
colored = "*"
duct = "*"
opener = "*"
serde = { version = "*", features = ["derive"] }
toml = "*"
