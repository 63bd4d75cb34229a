[package]
name = "citrus"
version = "0.1.0"
edition = "2021"
publish = false

[dependencies]
toml = "*"
serde = { version = "*", features = ["derive"] }
serde_yaml = "*"
clap = "*"
diesel = { version = "*", features = ["postgres"] }
diesel_migrations = "*"
