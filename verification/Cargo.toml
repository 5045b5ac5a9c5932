[package]
name = "gitconf"
version = "0.1.0"
edition = "2021"
publish = false

[dependencies]
inquire = "*"
log = "*"
serde = { version = "*", features = ["derive"] }
simplelog = "*"
toml = "*"
which = "*"
