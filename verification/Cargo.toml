[package]
name = "imrs"
version = "0.1.0"
edition = "2021"
publish = false

[dependencies]
scraper = "*"
urlencoding = "*"
chrono = "*"
axum = "0.6"
tokio = { version = "1", features = ["rt-multi-thread", "macros", "time"] }
reqwest = { version = "0.11", default-features = false, features = ["json"] }
plotters = "*"
image = "*"
clap = { version = "4", features = ["derive"] }
serde = { version = "1", features = ["derive"] }
