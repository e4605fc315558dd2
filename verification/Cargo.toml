[package]
name = "peybot"
version = "0.1.0"
edition = "2021"
publish = false

[dependencies]
scraper = "*"
num-format = "0.4"
reqwest = "0.12"
tokio = { version = "1", features = ["macros", "rt-multi-thread", "time"] }
dotenv = "0.15"
serde = { version = "1", features = ["derive"] }
serde_json = "1"
