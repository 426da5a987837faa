[package]
name = "aurex"
version = "0.1.0"
edition = "2021"
publish = false

[dependencies]
clap = "4"
crossterm = "0.28"
reqwest = { version = "0.12", features = ["blocking"] }
roxmltree = "0.20"
serde = { version = "1", features = ["derive"] }
toml = "0.8"
toml_edit = "0.22"
zip = { version = "0.6", default-features = false, features = ["deflate"] }
