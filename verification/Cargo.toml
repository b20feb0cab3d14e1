[package]
name = "skyline_update"
version = "0.1.0"
edition = "2021"
publish = false

[dependencies]
semver = "*"
serde = { version = "*", features = ["derive"] }
toml = "*"
notify = "*"
crossbeam = "*"
