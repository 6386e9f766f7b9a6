[package]
name = "modali"
version = "0.1.0"
edition = "2021"
publish = false

[dependencies]
clap = { version = "4", default-features = false, features = ["derive", "std", "help", "usage", "error-context"] }
color-eyre = { version = "0.6", default-features = false }
iced = { version = "0.13", default-features = false }
iced_runtime = "0.13"
ron = "0.8"
serde = { version = "1", features = ["derive"] }
serde_json = "1"
