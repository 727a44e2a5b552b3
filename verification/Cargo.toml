[package]
name = "ocs"
version = "0.1.0"
edition = "2021"
publish = false

[dependencies]
anyhow = "1"
chrono = "0.4"
clap = { version = "4", features = ["derive"] }
clap_complete = "4"
crossterm = "0.28"
ctrlc = "3"
pulldown-cmark = { version = "0.12", default-features = false }
regex = "1"
rusqlite = "0.32"
serde = { version = "1", features = ["derive"] }
serde_json = "1"
syntect = { version = "5", default-features = false, features = ["default-fancy"] }
unicode-width = "0.2"
