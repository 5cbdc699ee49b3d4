[package]
name = "tomorin"
version = "0.1.0"
edition = "2021"
publish = false

[dependencies]
anyhow = "*"
chrono = "*"
clap = { version = "*", features = ["derive"] }
futures-util = "*"
grammers-client = "*"
htmlescape = "*"
humantime = "*"
knuffel = "*"
miette = "*"
reqwest = { version = "*", default-features = false, features = ["json"] }
serde = { version = "*", features = ["derive"] }
sysinfo = "*"
tokio = { version = "*", features = ["full"] }
tracing = "*"
tracing-subscriber = "*"
unicode-width = "*"
