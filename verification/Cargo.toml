[package]
name = "tush"
version = "0.1.0"
edition = "2021"
publish = false

[dependencies]
clap = { version = "*", features = ["derive"] }
walkdir = "*"
bat = { version = "*", default-features = false, features = ["regex-onig"] }
reqwest = { version = "*", default-features = false, features = ["blocking", "json"] }
serde = { version = "*", features = ["derive"] }
serde_json = "*"
