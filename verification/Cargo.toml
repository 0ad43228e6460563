[package]
name = "plz"
version = "0.1.0"
edition = "2021"
publish = false

[dependencies]
anstyle = "*"
clap = "*"
reqwest = { version = "*", default-features = false, features = ["blocking", "json"] }
scraper = "*"
serde = { version = "*", features = ["derive"] }
