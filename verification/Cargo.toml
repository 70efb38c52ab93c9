[package]
name = "balatro_wiki"
version = "0.1.0"
edition = "2021"
publish = false

[dependencies]
anyhow = "1"
chrono = "0.4"
clap = { version = "4", features = ["derive"] }
reqwest = "*"
scraper = "*"
serde = { version = "1", features = ["derive"] }
serde_json = "1"
shellexpand = "*"
tokio = { version = "1", features = ["macros", "rt-multi-thread"] }
