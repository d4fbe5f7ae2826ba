[package]
name = "arewevarietyyet"
version = "0.1.0"
edition = "2021"
publish = false

[dependencies]
humantime = "*"
actix = "*"
actix-web = "*"
actix-files = "*"
anyhow = "*"
chrono = { version = "*", features = ["serde"] }
futures = "*"
handlebars = { version = "*", features = ["dir_source"] }
reqwest = { version = "*", default-features = false, features = ["json"] }
serde = { version = "*", features = ["derive"] }
