[package]
name = "repoman"
version = "0.1.0"
edition = "2021"
publish = false

[dependencies]
clap = "*"
directories = "*"
duct = "*"
serde = { version = "*", features = ["derive"] }
serde_yaml = "*"
