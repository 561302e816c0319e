[package]
name = "run_report"
version = "0.1.0"
edition = "2021"
publish = false

[dependencies]
base64 = "=0.23.1"
chrono = { version = "=0.4.45", features = ["serde"] }
clap = { version = "*", features = ["derive"] }
dotenvy = "*"
handlebars = "*"
reqwest = { version = "=0.13.5", default-features = false, features = ["json", "query", "form"] }
serde = { version = "*", features = ["derive"] }
serde_json = "*"
tokio = { version = "*", features = ["macros", "rt-multi-thread"] }
