[package]
name = "pyproject_toml"
version = "0.1.0"
edition = "2021"
publish = false

[dependencies]
glob = "=0.3.4"
indexmap = { version = "=2.14.2", features = ["serde"] }
pep440_rs = "=0.7.3"
pep508_rs = "=0.9.2"
serde = { version = "=1.0.229", features = ["derive"] }
toml = "=1.1.7"
